//! The messages that cross the runtime boundary, and their wire form.
//!
//! A request or response is laid out as a positional list of values and
//! encoded with the value codec; a response travels inside an envelope
//! of a 4-byte little-endian length prefix followed by exactly that
//! many payload bytes.

use vstd::prelude::*;
use vstd::bytes::{spec_u32_to_le_bytes, spec_u32_from_le_bytes, u32_to_le_bytes, u32_from_le_bytes};
use vstd::slice::{slice_subrange, slice_to_vec};
use crate::value::{StructuredValue, SpecValue, values_view, entries_view, spec_value_of};
use crate::codec::{enc_value, dec_value, encode_value, decode_value};

verus! {

broadcast use vstd::std_specs::vec::group_vec_axioms, vstd::seq::group_seq_axioms, crate::value::lemma_list_view_index, crate::value::lemma_object_view_index, crate::value::lemma_list_view_values, crate::value::lemma_object_view_entries;

/// One resource as it crosses the boundary.
#[derive(Debug, Clone)]
pub struct WireResource {
    pub resource_type: String,
    pub name: String,
    pub properties: Vec<(String, StructuredValue)>,
    pub depends_on: Vec<String>,
    pub provider: String,
}

/// The secrets provider block forwarded verbatim to the runtime.
#[derive(Debug, Clone)]
pub enum SecretsProvider {
    Passphrase(String),
    CloudKms { provider_type: String, key_id: String, credentials: Vec<(String, String)> },
    Local,
}

/// The state-backend block forwarded verbatim to the runtime.
#[derive(Debug, Clone)]
pub enum WireBackend {
    Local { path: String },
    S3 {
        bucket: String,
        region: String,
        access_key: String,
        secret_key: String,
        session_token: String,
        endpoint: String,
    },
    AzureBlob { storage_account: String, container: String, access_key: String, sas_token: String },
    Cloud { url: String, api_token: String },
}

/// The embedded runtime-configuration block.
#[derive(Debug, Clone)]
pub struct PulumiConfiguration {
    pub secrets_provider: Option<SecretsProvider>,
    pub backend: Option<WireBackend>,
    pub environment: Vec<(String, String)>,
    pub pulumi_home: String,
    pub log_level: String,
}

/// One operation request.
#[derive(Debug, Clone)]
pub struct PulumiRequest {
    pub working_dir: String,
    pub stack_name: String,
    pub project_name: String,
    pub resources: Vec<WireResource>,
    pub config: Vec<(String, String)>,
    pub pulumi_config: Option<PulumiConfiguration>,
}

/// One (resource name, output name, value) triple of a response.
#[derive(Debug, Clone)]
pub struct ResourceOutput {
    pub resource_name: String,
    pub output_name: String,
    pub value: Option<StructuredValue>,
}

/// One operation response: on success the error text is ignored, on
/// failure the outputs are.
#[derive(Debug, Clone)]
pub struct PulumiResponse {
    pub success: bool,
    pub outputs: Vec<ResourceOutput>,
    pub error: String,
}

pub open spec fn strings_view(ss: Seq<String>) -> Seq<SpecValue> {
    Seq::new(ss.len(), |i: int|
        if 0 <= i < ss.len() {
            SpecValue::Str(ss[i]@)
        } else {
            SpecValue::Null
        })
}

pub open spec fn string_pairs_view(ps: Seq<(String, String)>) -> Seq<(Seq<char>, SpecValue)> {
    Seq::new(ps.len(), |i: int|
        if 0 <= i < ps.len() {
            (ps[i].0@, SpecValue::Str(ps[i].1@))
        } else {
            (Seq::<char>::empty(), SpecValue::Null)
        })
}

pub open spec fn spec_resource_value(r: WireResource) -> SpecValue {
    SpecValue::List(
        seq![
            SpecValue::Str(r.resource_type@),
            SpecValue::Str(r.name@),
            SpecValue::Object(entries_view(r.properties@)),
            SpecValue::List(strings_view(r.depends_on@)),
            SpecValue::Str(r.provider@),
        ],
    )
}

pub open spec fn resources_view(rs: Seq<WireResource>) -> Seq<SpecValue> {
    Seq::new(rs.len(), |i: int|
        if 0 <= i < rs.len() {
            spec_resource_value(rs[i])
        } else {
            SpecValue::Null
        })
}

pub open spec fn spec_secrets_value(s: SecretsProvider) -> SpecValue {
    match s {
        SecretsProvider::Passphrase(p) => SpecValue::List(
            seq![SpecValue::Int(0), SpecValue::Str(p@)],
        ),
        SecretsProvider::CloudKms { provider_type, key_id, credentials } => SpecValue::List(
            seq![
                SpecValue::Int(1),
                SpecValue::Str(provider_type@),
                SpecValue::Str(key_id@),
                SpecValue::Object(string_pairs_view(credentials@)),
            ],
        ),
        SecretsProvider::Local => SpecValue::List(seq![SpecValue::Int(2)]),
    }
}

pub open spec fn spec_backend_value(b: WireBackend) -> SpecValue {
    match b {
        WireBackend::Local { path } => SpecValue::List(seq![SpecValue::Int(0), SpecValue::Str(path@)]),
        WireBackend::S3 { bucket, region, access_key, secret_key, session_token, endpoint } => SpecValue::List(
            seq![
                SpecValue::Int(1),
                SpecValue::Str(bucket@),
                SpecValue::Str(region@),
                SpecValue::Str(access_key@),
                SpecValue::Str(secret_key@),
                SpecValue::Str(session_token@),
                SpecValue::Str(endpoint@),
            ],
        ),
        WireBackend::AzureBlob { storage_account, container, access_key, sas_token } => SpecValue::List(
            seq![
                SpecValue::Int(2),
                SpecValue::Str(storage_account@),
                SpecValue::Str(container@),
                SpecValue::Str(access_key@),
                SpecValue::Str(sas_token@),
            ],
        ),
        WireBackend::Cloud { url, api_token } => SpecValue::List(
            seq![SpecValue::Int(3), SpecValue::Str(url@), SpecValue::Str(api_token@)],
        ),
    }
}

pub open spec fn spec_configuration_value(c: PulumiConfiguration) -> SpecValue {
    SpecValue::List(
        seq![
            match c.secrets_provider {
                Some(s) => spec_secrets_value(s),
                None => SpecValue::Null,
            },
            match c.backend {
                Some(b) => spec_backend_value(b),
                None => SpecValue::Null,
            },
            SpecValue::Object(string_pairs_view(c.environment@)),
            SpecValue::Str(c.pulumi_home@),
            SpecValue::Str(c.log_level@),
        ],
    )
}

pub open spec fn spec_request_value(q: PulumiRequest) -> SpecValue {
    SpecValue::List(
        seq![
            SpecValue::Str(q.working_dir@),
            SpecValue::Str(q.stack_name@),
            SpecValue::Str(q.project_name@),
            SpecValue::List(resources_view(q.resources@)),
            SpecValue::Object(string_pairs_view(q.config@)),
            match q.pulumi_config {
                Some(c) => spec_configuration_value(c),
                None => SpecValue::Null,
            },
        ],
    )
}

/// Deep copy of an entry list, preserving its model.
pub fn clone_entries(entries: &Vec<(String, StructuredValue)>) -> (r: Vec<
    (String, StructuredValue),
>)
    ensures
        entries_view(r@) == entries_view(entries@),
{
    let mut out: Vec<(String, StructuredValue)> = Vec::new();
    let mut i: usize = 0;
    while i < entries.len()
        invariant
            i <= entries.len(),
            out@.len() == i as int,
            forall|j: int| 0 <= j < i ==> out@[j].0@ == entries@[j].0@ && out@[j].1@
                == entries@[j].1@,
        decreases entries.len() - i,
    {
        let (k, v) = &entries[i];
        out.push((k.clone(), v.clone()));
        i = i + 1;
    }
    proof {
        assert(entries_view(out@) =~= entries_view(entries@));
    }
    out
}

/// The strings of `ss` as string values.
fn strings_to_values(ss: &Vec<String>) -> (r: Vec<StructuredValue>)
    ensures
        values_view(r@) == strings_view(ss@),
{
    let mut out: Vec<StructuredValue> = Vec::new();
    let mut i: usize = 0;
    while i < ss.len()
        invariant
            i <= ss.len(),
            out@.len() == i as int,
            forall|j: int| 0 <= j < i ==> out@[j]@ == SpecValue::Str(ss@[j]@),
        decreases ss.len() - i,
    {
        out.push(StructuredValue::Str(ss[i].clone()));
        i = i + 1;
    }
    proof {
        assert(values_view(out@) =~= strings_view(ss@));
    }
    out
}

/// The string pairs of `ps` as object entries.
fn string_pairs_to_entries(ps: &Vec<(String, String)>) -> (r: Vec<(String, StructuredValue)>)
    ensures
        entries_view(r@) == string_pairs_view(ps@),
{
    let mut out: Vec<(String, StructuredValue)> = Vec::new();
    let mut i: usize = 0;
    while i < ps.len()
        invariant
            i <= ps.len(),
            out@.len() == i as int,
            forall|j: int| 0 <= j < i ==> out@[j].0@ == ps@[j].0@ && out@[j].1@ == SpecValue::Str(
                ps@[j].1@,
            ),
        decreases ps.len() - i,
    {
        let (k, v) = &ps[i];
        out.push((k.clone(), StructuredValue::Str(v.clone())));
        i = i + 1;
    }
    proof {
        assert(entries_view(out@) =~= string_pairs_view(ps@));
    }
    out
}

impl WireResource {
    /// This resource as a wire value.
    pub fn to_value(&self) -> (r: StructuredValue)
        ensures
            r@ == spec_resource_value(*self),
    {
        let mut items: Vec<StructuredValue> = Vec::new();
        items.push(StructuredValue::Str(self.resource_type.clone()));
        items.push(StructuredValue::Str(self.name.clone()));
        items.push(StructuredValue::Object(clone_entries(&self.properties)));
        items.push(StructuredValue::List(strings_to_values(&self.depends_on)));
        items.push(StructuredValue::Str(self.provider.clone()));
        let r = StructuredValue::List(items);
        proof {
            assert(r@->List_0 =~~= spec_resource_value(*self)->List_0);
        }
        r
    }
}

impl SecretsProvider {
    /// This block as a wire value.
    pub fn to_value(&self) -> (r: StructuredValue)
        ensures
            r@ == spec_secrets_value(*self),
    {
        match self {
            SecretsProvider::Passphrase(p) => {
                let mut items: Vec<StructuredValue> = Vec::new();
                items.push(StructuredValue::Int(0));
                items.push(StructuredValue::Str(p.clone()));
                let r = StructuredValue::List(items);
                proof {
                    assert(r@->List_0 =~~= spec_secrets_value(*self)->List_0);
                }
                r
            },
            SecretsProvider::CloudKms { provider_type, key_id, credentials } => {
                let mut items: Vec<StructuredValue> = Vec::new();
                items.push(StructuredValue::Int(1));
                items.push(StructuredValue::Str(provider_type.clone()));
                items.push(StructuredValue::Str(key_id.clone()));
                items.push(StructuredValue::Object(string_pairs_to_entries(credentials)));
                let r = StructuredValue::List(items);
                proof {
                    assert(r@->List_0 =~~= spec_secrets_value(*self)->List_0);
                }
                r
            },
            SecretsProvider::Local => {
                let mut items: Vec<StructuredValue> = Vec::new();
                items.push(StructuredValue::Int(2));
                let r = StructuredValue::List(items);
                proof {
                    assert(r@->List_0 =~~= spec_secrets_value(*self)->List_0);
                }
                r
            },
        }
    }
}

impl WireBackend {
    /// This block as a wire value.
    pub fn to_value(&self) -> (r: StructuredValue)
        ensures
            r@ == spec_backend_value(*self),
    {
        let mut items: Vec<StructuredValue> = Vec::new();
        match self {
            WireBackend::Local { path } => {
                items.push(StructuredValue::Int(0));
                items.push(StructuredValue::Str(path.clone()));
            },
            WireBackend::S3 { bucket, region, access_key, secret_key, session_token, endpoint } => {
                items.push(StructuredValue::Int(1));
                items.push(StructuredValue::Str(bucket.clone()));
                items.push(StructuredValue::Str(region.clone()));
                items.push(StructuredValue::Str(access_key.clone()));
                items.push(StructuredValue::Str(secret_key.clone()));
                items.push(StructuredValue::Str(session_token.clone()));
                items.push(StructuredValue::Str(endpoint.clone()));
            },
            WireBackend::AzureBlob { storage_account, container, access_key, sas_token } => {
                items.push(StructuredValue::Int(2));
                items.push(StructuredValue::Str(storage_account.clone()));
                items.push(StructuredValue::Str(container.clone()));
                items.push(StructuredValue::Str(access_key.clone()));
                items.push(StructuredValue::Str(sas_token.clone()));
            },
            WireBackend::Cloud { url, api_token } => {
                items.push(StructuredValue::Int(3));
                items.push(StructuredValue::Str(url.clone()));
                items.push(StructuredValue::Str(api_token.clone()));
            },
        }
        let r = StructuredValue::List(items);
        proof {
            assert(r@->List_0 =~~= spec_backend_value(*self)->List_0);
        }
        r
    }
}

impl PulumiConfiguration {
    /// This block as a wire value.
    pub fn to_value(&self) -> (r: StructuredValue)
        ensures
            r@ == spec_configuration_value(*self),
    {
        let mut items: Vec<StructuredValue> = Vec::new();
        match &self.secrets_provider {
            Some(s) => items.push(s.to_value()),
            None => items.push(StructuredValue::Null),
        }
        match &self.backend {
            Some(b) => items.push(b.to_value()),
            None => items.push(StructuredValue::Null),
        }
        items.push(StructuredValue::Object(string_pairs_to_entries(&self.environment)));
        items.push(StructuredValue::Str(self.pulumi_home.clone()));
        items.push(StructuredValue::Str(self.log_level.clone()));
        let r = StructuredValue::List(items);
        proof {
            assert(r@->List_0 =~~= spec_configuration_value(*self)->List_0);
        }
        r
    }
}

impl PulumiRequest {
    /// This request as a wire value.
    pub fn to_value(&self) -> (r: StructuredValue)
        ensures
            r@ == spec_request_value(*self),
    {
        let mut items: Vec<StructuredValue> = Vec::new();
        items.push(StructuredValue::Str(self.working_dir.clone()));
        items.push(StructuredValue::Str(self.stack_name.clone()));
        items.push(StructuredValue::Str(self.project_name.clone()));
        let mut rs: Vec<StructuredValue> = Vec::new();
        let mut i: usize = 0;
        while i < self.resources.len()
            invariant
                i <= self.resources.len(),
                rs@.len() == i as int,
                forall|j: int| 0 <= j < i ==> rs@[j]@ == spec_resource_value(self.resources@[j]),
            decreases self.resources.len() - i,
        {
            rs.push(self.resources[i].to_value());
            i = i + 1;
        }
        proof {
            assert(values_view(rs@) =~~= resources_view(self.resources@));
        }
        items.push(StructuredValue::List(rs));
        items.push(StructuredValue::Object(string_pairs_to_entries(&self.config)));
        match &self.pulumi_config {
            Some(c) => items.push(c.to_value()),
            None => items.push(StructuredValue::Null),
        }
        let r = StructuredValue::List(items);
        proof {
            assert(r@->List_0 =~~= spec_request_value(*self)->List_0);
        }
        r
    }
}

/// The wire bytes of a request: must not fail for any well-formed
/// request.
pub fn encode_request(q: &PulumiRequest) -> (r: Vec<u8>)
    ensures
        r@ == enc_value(spec_request_value(*q)),
{
    let v = q.to_value();
    encode_value(&v)
}

/// The envelope around a response payload: a 4-byte little-endian
/// length, then exactly that many payload bytes.
pub open spec fn spec_envelope(payload: Seq<u8>) -> Seq<u8> {
    spec_u32_to_le_bytes(payload.len() as u32) + payload
}

/// Wraps a payload in the wire envelope.
pub fn encode_envelope(payload: &Vec<u8>) -> (r: Vec<u8>)
    requires
        payload@.len() <= u32::MAX,
    ensures
        r@ == spec_envelope(payload@),
{
    let mut out = u32_to_le_bytes(payload.len() as u32);
    let mut body = slice_to_vec(payload.as_slice());
    proof {
        assert(body@ =~= payload@);
    }
    out.append(&mut body);
    proof {
        assert(out@ =~= spec_envelope(payload@));
    }
    out
}

/// Takes a payload out of the wire envelope: the buffer must hold the
/// prefix and exactly the announced number of payload bytes.
pub fn open_envelope(bytes: &Vec<u8>) -> (r: Option<Vec<u8>>)
    ensures
        match r {
            Some(p) => bytes@.len() >= 4 && spec_u32_from_le_bytes(bytes@.take(4)) == bytes@.len()
                - 4 && p@ == bytes@.skip(4),
            None => bytes@.len() < 4 || spec_u32_from_le_bytes(bytes@.take(4)) != bytes@.len() - 4,
        },
{
    if bytes.len() < 4 {
        return None;
    }
    let word = slice_subrange(bytes.as_slice(), 0, 4);
    let n = u32_from_le_bytes(word);
    proof {
        assert(bytes@.take(4) =~= bytes@.subrange(0, 4));
    }
    if (n as usize) != bytes.len() - 4 {
        return None;
    }
    let payload = slice_to_vec(slice_subrange(bytes.as_slice(), 4, bytes.len()));
    proof {
        assert(payload@ =~= bytes@.skip(4));
    }
    Some(payload)
}

pub open spec fn spec_output_value(o: ResourceOutput) -> SpecValue {
    SpecValue::List(
        seq![
            SpecValue::Str(o.resource_name@),
            SpecValue::Str(o.output_name@),
            match o.value {
                Some(v) => v@,
                None => SpecValue::Null,
            },
        ],
    )
}

pub open spec fn outputs_values_view(os: Seq<ResourceOutput>) -> Seq<SpecValue> {
    Seq::new(os.len(), |i: int|
        if 0 <= i < os.len() {
            spec_output_value(os[i])
        } else {
            SpecValue::Null
        })
}

pub open spec fn spec_response_value(p: PulumiResponse) -> SpecValue {
    SpecValue::List(
        seq![
            SpecValue::Bool(p.success),
            SpecValue::List(outputs_values_view(p.outputs@)),
            SpecValue::Str(p.error@),
        ],
    )
}

/// The models of a response's output triples.
pub open spec fn response_triples(os: Seq<ResourceOutput>) -> Seq<
    (Seq<char>, Seq<char>, Option<SpecValue>),
> {
    Seq::new(os.len(), |i: int|
        if 0 <= i < os.len() {
            (os[i].resource_name@, os[i].output_name@, match os[i].value {
                Some(v) => Some(v@),
                None => None,
            })
        } else {
            (Seq::<char>::empty(), Seq::<char>::empty(), None)
        })
}

/// One output triple read back from a wire value: a three-element list
/// of two strings and a value, a null value standing for "absent".
pub open spec fn parse_output(v: SpecValue) -> Option<(Seq<char>, Seq<char>, Option<SpecValue>)> {
    match v {
        SpecValue::List(items) => if items.len() == 3 {
            match (items[0], items[1]) {
                (SpecValue::Str(rn), SpecValue::Str(on)) => Some(
                    (
                        rn,
                        on,
                        if items[2] is Null {
                            None
                        } else {
                            Some(items[2])
                        },
                    ),
                ),
                _ => None,
            }
        } else {
            None
        },
        _ => None,
    }
}

pub open spec fn parse_outputs(items: Seq<SpecValue>) -> Option<
    Seq<(Seq<char>, Seq<char>, Option<SpecValue>)>,
>
    decreases items.len(),
{
    if items.len() == 0 {
        Some(Seq::empty())
    } else {
        match parse_output(items[0]) {
            Some(o) => match parse_outputs(items.drop_first()) {
                Some(os) => Some(seq![o] + os),
                None => None,
            },
            None => None,
        }
    }
}

/// A response read back from a wire value: a three-element list of a
/// success flag, the output list, and the error text.
pub open spec fn parse_response(v: SpecValue) -> Option<
    (bool, Seq<(Seq<char>, Seq<char>, Option<SpecValue>)>, Seq<char>),
> {
    match v {
        SpecValue::List(items) => if items.len() == 3 {
            match (items[0], items[2]) {
                (SpecValue::Bool(success), SpecValue::Str(error)) => match items[1] {
                    SpecValue::List(os) => match parse_outputs(os) {
                        Some(triples) => Some((success, triples, error)),
                        None => None,
                    },
                    _ => None,
                },
                _ => None,
            }
        } else {
            None
        },
        _ => None,
    }
}

/// What decoding an enveloped response buffer yields, if anything: the
/// envelope must be exact, the payload must decode completely, and the
/// decoded value must have the response shape.
pub open spec fn spec_decode_response(b: Seq<u8>) -> Option<
    (bool, Seq<(Seq<char>, Seq<char>, Option<SpecValue>)>, Seq<char>),
> {
    if b.len() >= 4 && spec_u32_from_le_bytes(b.take(4)) == b.len() - 4 {
        match dec_value(b.skip(4)) {
            Some((v, used)) => if used == b.len() - 4 {
                parse_response(v)
            } else {
                None
            },
            None => None,
        }
    } else {
        None
    }
}

impl ResourceOutput {
    /// This triple as a wire value.
    pub fn to_value(&self) -> (r: StructuredValue)
        ensures
            r@ == spec_output_value(*self),
    {
        let mut items: Vec<StructuredValue> = Vec::new();
        items.push(StructuredValue::Str(self.resource_name.clone()));
        items.push(StructuredValue::Str(self.output_name.clone()));
        match &self.value {
            Some(v) => items.push(v.clone()),
            None => items.push(StructuredValue::Null),
        }
        let r = StructuredValue::List(items);
        proof {
            assert(r@->List_0 =~~= spec_output_value(*self)->List_0);
        }
        r
    }
}

impl PulumiResponse {
    /// This response as a wire value.
    pub fn to_value(&self) -> (r: StructuredValue)
        ensures
            r@ == spec_response_value(*self),
    {
        let mut items: Vec<StructuredValue> = Vec::new();
        items.push(StructuredValue::Bool(self.success));
        let mut os: Vec<StructuredValue> = Vec::new();
        let mut i: usize = 0;
        while i < self.outputs.len()
            invariant
                i <= self.outputs.len(),
                os@.len() == i as int,
                forall|j: int| 0 <= j < i ==> os@[j]@ == spec_output_value(self.outputs@[j]),
            decreases self.outputs.len() - i,
        {
            os.push(self.outputs[i].to_value());
            i = i + 1;
        }
        proof {
            assert(values_view(os@) =~= outputs_values_view(self.outputs@));
        }
        items.push(StructuredValue::List(os));
        items.push(StructuredValue::Str(self.error.clone()));
        let r = StructuredValue::List(items);
        proof {
            assert(r@->List_0 =~~= spec_response_value(*self)->List_0);
        }
        r
    }
}

/// Encodes a response in its envelope; fails only when the payload
/// exceeds the 32-bit length prefix.
pub fn encode_response(p: &PulumiResponse) -> (r: Option<Vec<u8>>)
    ensures
        match r {
            Some(bytes) => enc_value(spec_response_value(*p)).len() <= u32::MAX && bytes@
                == spec_envelope(enc_value(spec_response_value(*p))),
            None => enc_value(spec_response_value(*p)).len() > u32::MAX,
        },
{
    let v = p.to_value();
    let payload = encode_value(&v);
    if payload.len() as u64 > u32::MAX as u64 {
        return None;
    }
    Some(encode_envelope(&payload))
}

/// Reads one output triple out of a decoded wire value.
fn parse_output_exec(v: StructuredValue) -> (r: Option<ResourceOutput>)
    ensures
        match r {
            Some(o) => parse_output(v@) == Some(
                (o.resource_name@, o.output_name@, match o.value {
                    Some(x) => Some(x@),
                    None => None,
                }),
            ),
            None => parse_output(v@) is None,
        },
{
    match v {
        StructuredValue::List(mut items) => {
            if items.len() != 3 {
                return None;
            }
            let ghost iv = items@;
            let value_v = items.pop().unwrap();
            let on_v = items.pop().unwrap();
            let rn_v = items.pop().unwrap();
            proof {
                assert(value_v == iv[2] && on_v == iv[1] && rn_v == iv[0]);
            }
            match (rn_v, on_v) {
                (StructuredValue::Str(rn), StructuredValue::Str(on)) => {
                    let value = match value_v {
                        StructuredValue::Null => None,
                        other => Some(other),
                    };
                    Some(ResourceOutput { resource_name: rn, output_name: on, value })
                },
                _ => None,
            }
        },
        _ => None,
    }
}

/// Reads a whole response out of a decoded wire value.
fn parse_response_exec(v: StructuredValue) -> (r: Option<PulumiResponse>)
    ensures
        match r {
            Some(p) => parse_response(v@) == Some(
                (p.success, response_triples(p.outputs@), p.error@),
            ),
            None => parse_response(v@) is None,
        },
{
    match v {
        StructuredValue::List(mut items) => {
            if items.len() != 3 {
                return None;
            }
            let ghost iv = items@;
            let error_v = items.pop().unwrap();
            let outputs_v = items.pop().unwrap();
            let success_v = items.pop().unwrap();
            proof {
                assert(error_v == iv[2] && outputs_v == iv[1] && success_v == iv[0]);
            }
            let success = match success_v {
                StructuredValue::Bool(b) => b,
                _ => {
                    return None;
                },
            };
            let error = match error_v {
                StructuredValue::Str(e) => e,
                _ => {
                    return None;
                },
            };
            let os = match outputs_v {
                StructuredValue::List(os) => os,
                _ => {
                    return None;
                },
            };
            let ghost osv = values_view(os@);
            let mut outputs: Vec<ResourceOutput> = Vec::new();
            let mut i: usize = 0;
            proof {
                assert(osv.skip(0) =~= osv);
                assert(response_triples(outputs@) =~= Seq::<
                    (Seq<char>, Seq<char>, Option<SpecValue>),
                >::empty());
                if parse_outputs(osv) is Some {
                    assert(response_triples(outputs@) + parse_outputs(osv)->Some_0 =~= parse_outputs(
                        osv,
                    )->Some_0);
                }
            }
            while i < os.len()
                invariant
                    i <= os.len(),
                    v is List,
                    v->List_0@ == iv,
                    iv.len() == 3,
                    spec_value_of(iv[0]) == SpecValue::Bool(success),
                    spec_value_of(iv[2]) == SpecValue::Str(error@),
                    spec_value_of(iv[1]) == SpecValue::List(osv),
                    osv == values_view(os@),
                    osv.len() == os@.len(),
                    match parse_outputs(osv.skip(i as int)) {
                        Some(rest) => parse_outputs(osv) == Some(
                            response_triples(outputs@) + rest,
                        ),
                        None => parse_outputs(osv) is None,
                    },
                decreases os.len() - i,
            {
                let ghost pre = response_triples(outputs@);
                let elem = os[i].clone();
                proof {
                    assert(elem@ == osv[i as int]);
                    assert(osv.skip(i as int)[0] == osv[i as int]);
                    assert(osv.skip(i as int).drop_first() =~= osv.skip(i + 1 as int));
                }
                match parse_output_exec(elem) {
                    Some(o) => {
                        outputs.push(o);
                        proof {
                            assert(response_triples(outputs@) =~= pre + seq![
                                (o.resource_name@, o.output_name@, match o.value {
                                    Some(x) => Some(x@),
                                    None => None,
                                }),
                            ]);
                            if parse_outputs(osv.skip(i + 1 as int)) is Some {
                                let rest2 = parse_outputs(osv.skip(i + 1 as int))->Some_0;
                                assert(pre + (seq![
                                    (o.resource_name@, o.output_name@, match o.value {
                                        Some(x) => Some(x@),
                                        None => None,
                                    }),
                                ] + rest2) =~= response_triples(outputs@) + rest2);
                            }
                        }
                    },
                    None => {
                        proof {
                            assert(parse_output(osv[i as int]) is None);
                            assert(osv.skip(i as int).len() > 0);
                            assert(parse_outputs(osv.skip(i as int)) is None) by {
                                assert(osv.skip(i as int)[0] == osv[i as int]);
                                assert(parse_output(osv.skip(i as int)[0]) is None);
                            }
                            assert(parse_outputs(osv) is None);
                            let vv = spec_value_of(v)->List_0;
                            assert(vv == values_view(iv));
                            assert(vv.len() == 3);
                            assert(vv[0] == SpecValue::Bool(success));
                            assert(vv[2] == SpecValue::Str(error@));
                            assert(spec_value_of(iv[1])->List_0 == values_view(os@));
                            assert(vv[1] == SpecValue::List(osv));
                            assert(parse_response(v@) is None);
                        }
                        return None;
                    },
                }
                i = i + 1;
            }
            proof {
                assert(osv.skip(os@.len() as int) =~= Seq::<SpecValue>::empty());
                assert(parse_outputs(osv.skip(os@.len() as int)) == Some(Seq::<
                    (Seq<char>, Seq<char>, Option<SpecValue>),
                >::empty()));
                assert(response_triples(outputs@) + Seq::<
                    (Seq<char>, Seq<char>, Option<SpecValue>),
                >::empty() =~= response_triples(outputs@));
            }
            proof {
                let vv = spec_value_of(v)->List_0;
                assert(vv == values_view(iv));
                assert(vv.len() == 3);
                assert(vv[0] == SpecValue::Bool(success));
                assert(vv[2] == SpecValue::Str(error@));
                assert(spec_value_of(iv[1])->List_0 == values_view(os@));
                assert(vv[1] == SpecValue::List(osv));
                assert(parse_response(v@) == Some((success, response_triples(outputs@), error@)));
            }
            Some(PulumiResponse { success, outputs, error })
        },
        _ => None,
    }
}

/// Decodes an enveloped response buffer.  Malformed wire data is fatal
/// for the call: no partial response is ever returned.
pub fn decode_response(bytes: &Vec<u8>) -> (r: crate::error::Result<PulumiResponse>)
    ensures
        match r {
            Ok(p) => spec_decode_response(bytes@) == Some(
                (p.success, response_triples(p.outputs@), p.error@),
            ),
            Err(e) => spec_decode_response(bytes@) is None && e is Serialization,
        },
{
    let payload = match open_envelope(bytes) {
        Some(p) => p,
        None => {
            return Err(
                crate::error::PulumistError::Serialization(
                    String::from_str("malformed response envelope"),
                ),
            );
        },
    };
    let value = match decode_value(&payload) {
        Some(v) => v,
        None => {
            return Err(
                crate::error::PulumistError::Serialization(
                    String::from_str("malformed response bytes"),
                ),
            );
        },
    };
    match parse_response_exec(value) {
        Some(p) => Ok(p),
        None => Err(
            crate::error::PulumistError::Serialization(
                String::from_str("unexpected response shape"),
            ),
        ),
    }
}

} // verus!
