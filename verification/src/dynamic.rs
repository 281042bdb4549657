//! The caller-facing resource and request types, and the pure halves of
//! every operation: assembling and encoding a request, and interpreting
//! a decoded response.  The process-boundary call between those two
//! halves lives outside the library.

use vstd::prelude::*;
use crate::value::{StructuredValue, SpecValue, entries_view};
use crate::wire::{WireResource, PulumiRequest, PulumiResponse, ResourceOutput, encode_request, decode_response, spec_request_value, response_triples, clone_entries};
use crate::codec::{enc_value, blobs_within, lemma_dec_value_blobs};
use crate::render::{blobs_fit, base64_fit_limit};
use crate::error::PulumistError;
use crate::shims::{base64_of, base64_encode, push_char};

verus! {

broadcast use vstd::std_specs::vec::group_vec_axioms, vstd::seq::group_seq_axioms, crate::value::lemma_list_view_index, crate::value::lemma_object_view_index, crate::value::lemma_list_view_values, crate::value::lemma_object_view_entries;

/// One resource described by the caller: kind, logical name, property
/// bag, and options.  It is consumed once when a request is assembled.
#[derive(Debug, Clone)]
pub struct DynamicResource {
    pub resource_type: String,
    pub name: String,
    pub properties: StructuredValue,
    pub options: Option<ResourceOptions>,
}

/// Per-resource options.
#[derive(Debug, Clone)]
pub struct ResourceOptions {
    pub parent: Option<String>,
    pub depends_on: Option<Vec<String>>,
    pub provider: Option<String>,
    pub delete_before_replace: Option<bool>,
}

impl Default for ResourceOptions {
    fn default() -> (r: Self)
        ensures
            r.parent is None,
            r.depends_on is None,
            r.provider is None,
            r.delete_before_replace is None,
    {
        ResourceOptions { parent: None, depends_on: None, provider: None, delete_before_replace: None }
    }
}

/// A whole stack operation: project, stack, optional backend, flat
/// configuration, and the resources to submit.
#[derive(Debug, Clone)]
pub struct StackRequest {
    pub project: String,
    pub stack: String,
    pub backend: Option<String>,
    pub config: Vec<(String, StructuredValue)>,
    pub resources: Vec<DynamicResource>,
}

/// An import operation: the identity of the existing resource to
/// import, plus the usual stack fields.
#[derive(Debug, Clone)]
pub struct ImportRequest {
    pub project: String,
    pub stack: String,
    pub backend: Option<String>,
    pub resource_type: String,
    pub resource_name: String,
    pub resource_id: String,
    pub resources: Vec<DynamicResource>,
    pub config: Vec<(String, StructuredValue)>,
    pub outputs: Vec<(String, StructuredValue)>,
}

/// The operation gateway: assembles and encodes requests, and
/// interprets decoded responses.
#[derive(Debug, Clone)]
pub struct PulumiDynamic;

/// The property entries a resource contributes: the entries of its
/// property object, or nothing when the bag is not an object.
pub open spec fn spec_properties_entries(v: SpecValue) -> Seq<(Seq<char>, SpecValue)> {
    match v {
        SpecValue::Object(es) => es,
        _ => Seq::empty(),
    }
}

/// The views of a sequence of strings.
pub open spec fn strs_view(ss: Seq<String>) -> Seq<Seq<char>> {
    Seq::new(ss.len(), |i: int|
        if 0 <= i < ss.len() {
            ss[i]@
        } else {
            Seq::<char>::empty()
        })
}

/// The dependency names a resource contributes: its options' list, or
/// nothing.
pub open spec fn spec_resource_depends(r: DynamicResource) -> Seq<Seq<char>> {
    match r.options {
        Some(o) => match o.depends_on {
            Some(d) => strs_view(d@),
            None => Seq::empty(),
        },
        None => Seq::empty(),
    }
}

/// The provider a resource contributes: its options' provider, or the
/// empty string.
pub open spec fn spec_resource_provider(r: DynamicResource) -> Seq<char> {
    match r.options {
        Some(o) => match o.provider {
            Some(p) => p@,
            None => Seq::empty(),
        },
        None => Seq::empty(),
    }
}

/// The flat string configuration sent over the wire: string values as
/// themselves, any other value as the empty string.
pub open spec fn spec_config_strings(config: Seq<(String, StructuredValue)>) -> Seq<
    (Seq<char>, Seq<char>),
> {
    Seq::new(config.len(), |i: int|
        if 0 <= i < config.len() {
            (config[i].0@, match config[i].1@ {
                SpecValue::Str(s) => s,
                _ => Seq::<char>::empty(),
            })
        } else {
            (Seq::<char>::empty(), Seq::<char>::empty())
        })
}

/// What one wire resource must hold for one caller resource.
pub open spec fn wire_resource_matches(w: WireResource, r: DynamicResource) -> bool {
    &&& w.resource_type@ == r.resource_type@
    &&& w.name@ == r.name@
    &&& entries_view(w.properties@) == spec_properties_entries(r.properties@)
    &&& strs_view(w.depends_on@) == spec_resource_depends(r)
    &&& w.provider@ == spec_resource_provider(r)
}

/// What the assembled wire request must hold for one stack request:
/// the project name doubles as the working directory, and no embedded
/// runtime-configuration block is attached.
pub open spec fn wire_request_matches(q: PulumiRequest, req: StackRequest) -> bool {
    &&& q.working_dir@ == req.project@
    &&& q.stack_name@ == req.stack@
    &&& q.project_name@ == req.project@
    &&& q.resources@.len() == req.resources@.len()
    &&& forall|i: int|
        0 <= i < req.resources@.len() ==> wire_resource_matches(
            #[trigger] q.resources@[i],
            req.resources@[i],
        )
    &&& string_pairs_entries_view(q.config@) == spec_config_strings(req.config@)
    &&& q.pulumi_config is None
}

/// The views of a sequence of string pairs.
pub open spec fn string_pairs_entries_view(ps: Seq<(String, String)>) -> Seq<
    (Seq<char>, Seq<char>),
> {
    Seq::new(ps.len(), |i: int|
        if 0 <= i < ps.len() {
            (ps[i].0@, ps[i].1@)
        } else {
            (Seq::<char>::empty(), Seq::<char>::empty())
        })
}

/// Deep copy of a sequence of strings.
fn clone_strings(ss: &Vec<String>) -> (r: Vec<String>)
    ensures
        strs_view(r@) == strs_view(ss@),
{
    let mut out: Vec<String> = Vec::new();
    let mut i: usize = 0;
    while i < ss.len()
        invariant
            i <= ss.len(),
            out@.len() == i as int,
            forall|j: int| 0 <= j < i ==> out@[j]@ == ss@[j]@,
        decreases ss.len() - i,
    {
        out.push(ss[i].clone());
        i = i + 1;
    }
    proof {
        assert(strs_view(out@) =~= strs_view(ss@));
    }
    out
}

/// The property entries of a resource's property bag.
fn properties_entries(properties: &StructuredValue) -> (r: Vec<(String, StructuredValue)>)
    ensures
        entries_view(r@) == spec_properties_entries(properties@),
{
    match properties {
        StructuredValue::Object(entries) => clone_entries(entries),
        _ => {
            let r: Vec<(String, StructuredValue)> = Vec::new();
            proof {
                assert(entries_view(r@) =~= spec_properties_entries(properties@));
            }
            r
        },
    }
}

/// One caller resource as a wire resource.
pub fn to_wire_resource(r: &DynamicResource) -> (w: WireResource)
    ensures
        wire_resource_matches(w, *r),
{
    let depends_on = match &r.options {
        Some(o) => match &o.depends_on {
            Some(d) => clone_strings(d),
            None => Vec::new(),
        },
        None => Vec::new(),
    };
    let provider = match &r.options {
        Some(o) => match &o.provider {
            Some(p) => p.clone(),
            None => String::new(),
        },
        None => String::new(),
    };
    proof {
        assert(strs_view(Seq::<String>::empty()) =~= Seq::<Seq<char>>::empty());
    }
    WireResource {
        resource_type: r.resource_type.clone(),
        name: r.name.clone(),
        properties: properties_entries(&r.properties),
        depends_on,
        provider,
    }
}

/// The flat string configuration of a request.
pub fn config_to_strings(config: &Vec<(String, StructuredValue)>) -> (r: Vec<(String, String)>)
    ensures
        string_pairs_entries_view(r@) == spec_config_strings(config@),
{
    let mut out: Vec<(String, String)> = Vec::new();
    let mut i: usize = 0;
    while i < config.len()
        invariant
            i <= config.len(),
            out@.len() == i as int,
            forall|j: int| 0 <= j < i ==> out@[j].0@ == config@[j].0@ && out@[j].1@ == (
            match config@[j].1@ {
                SpecValue::Str(s) => s,
                _ => Seq::<char>::empty(),
            }),
        decreases config.len() - i,
    {
        let (k, v) = &config[i];
        let text = match v {
            StructuredValue::Str(s) => s.clone(),
            _ => String::new(),
        };
        out.push((k.clone(), text));
        i = i + 1;
    }
    proof {
        assert(string_pairs_entries_view(out@) =~= spec_config_strings(config@));
    }
    out
}

/// Assembles the wire request for a stack operation.
pub fn build_wire_request(req: &StackRequest) -> (q: PulumiRequest)
    ensures
        wire_request_matches(q, *req),
{
    let mut resources: Vec<WireResource> = Vec::new();
    let mut i: usize = 0;
    while i < req.resources.len()
        invariant
            i <= req.resources.len(),
            resources@.len() == i as int,
            forall|j: int|
                0 <= j < i ==> wire_resource_matches(
                    #[trigger] resources@[j],
                    req.resources@[j],
                ),
        decreases req.resources.len() - i,
    {
        resources.push(to_wire_resource(&req.resources[i]));
        i = i + 1;
    }
    PulumiRequest {
        working_dir: req.project.clone(),
        stack_name: req.stack.clone(),
        project_name: req.project.clone(),
        resources,
        config: config_to_strings(&req.config),
        pulumi_config: None,
    }
}

/// Whether the double-precision bit pattern is a NaN or an infinity.
pub open spec fn non_finite_bits(bits: u64) -> bool {
    (bits >> 52) & 0x7FF == 0x7FF
}

/// The caller-facing form of a decoded wire value: byte blobs become
/// their base64 text, non-finite doubles become null, everything else
/// keeps its shape.
pub open spec fn caller_view(v: SpecValue) -> SpecValue
    decreases v,
{
    match v {
        SpecValue::Double(bits) => if non_finite_bits(bits) {
            SpecValue::Null
        } else {
            SpecValue::Double(bits)
        },
        SpecValue::Blob(b) => SpecValue::Str(base64_of(b)),
        SpecValue::List(items) => SpecValue::List(
            Seq::new(items.len(), |i: int|
                if 0 <= i < items.len() {
                    caller_view(items[i])
                } else {
                    SpecValue::Null
                }),
        ),
        SpecValue::Object(entries) => SpecValue::Object(
            Seq::new(entries.len(), |i: int|
                if 0 <= i < entries.len() {
                    (entries[i].0, caller_view(entries[i].1))
                } else {
                    (Seq::<char>::empty(), SpecValue::Null)
                }),
        ),
        _ => v,
    }
}

/// Converts a decoded wire value to its caller-facing form.
pub fn wire_to_caller(v: &StructuredValue) -> (r: StructuredValue)
    requires
        blobs_fit(v@),
    ensures
        r@ == caller_view(v@),
    decreases *v,
{
    match v {
        StructuredValue::Null => StructuredValue::Null,
        StructuredValue::Bool(b) => StructuredValue::Bool(*b),
        StructuredValue::Int(i) => StructuredValue::Int(*i),
        StructuredValue::Str(s) => StructuredValue::Str(s.clone()),
        StructuredValue::Double(bits) => {
            if (*bits >> 52) & 0x7FF == 0x7FF {
                StructuredValue::Null
            } else {
                StructuredValue::Double(*bits)
            }
        },
        StructuredValue::Blob(b) => StructuredValue::Str(base64_encode(b)),
        StructuredValue::List(items) => {
            let ghost lv = v@->List_0;
            let mut out: Vec<StructuredValue> = Vec::new();
            let mut k: usize = 0;
            while k < items.len()
                invariant
                    *v == StructuredValue::List(*items),
                    lv == v@->List_0,
                    blobs_fit(v@),
                    k <= items.len(),
                    lv.len() == items@.len(),
                    out@.len() == k as int,
                    forall|j: int| 0 <= j < k ==> out@[j]@ == caller_view(lv[j]),
                decreases items.len() - k,
            {
                proof {
                    assert(decreases_to!(*v => v->List_0));
                    assert(v->List_0 == *items);
                    assert(decreases_to!(*items => items[k as int]));
                    assert(decreases_to!(*v => items[k as int]));
                    assert(lv[k as int] == items@[k as int]@);
                    assert(blobs_fit(lv[k as int]));
                }
                out.push(wire_to_caller(&items[k]));
                k = k + 1;
            }
            let res = StructuredValue::List(out);
            proof {
                assert(res@->List_0 =~= caller_view(v@)->List_0);
            }
            res
        },
        StructuredValue::Object(entries) => {
            let ghost ev = v@->Object_0;
            let mut out: Vec<(String, StructuredValue)> = Vec::new();
            let mut k: usize = 0;
            while k < entries.len()
                invariant
                    *v == StructuredValue::Object(*entries),
                    ev == v@->Object_0,
                    blobs_fit(v@),
                    k <= entries.len(),
                    ev.len() == entries@.len(),
                    out@.len() == k as int,
                    forall|j: int| 0 <= j < k ==> out@[j].0@ == ev[j].0 && out@[j].1@
                        == caller_view(ev[j].1),
                decreases entries.len() - k,
            {
                proof {
                    assert(decreases_to!(*v => v->Object_0));
                    assert(v->Object_0 == *entries);
                    assert(decreases_to!(*entries => entries[k as int]));
                    assert(decreases_to!(entries[k as int] => entries[k as int].1));
                    assert(decreases_to!(*v => entries[k as int].1));
                    assert(ev[k as int] == (entries@[k as int].0@, entries@[k as int].1@));
                    assert(blobs_fit(ev[k as int].1));
                }
                let key = entries[k].0.clone();
                let cv = wire_to_caller(&entries[k].1);
                out.push((key, cv));
                k = k + 1;
            }
            let res = StructuredValue::Object(out);
            proof {
                assert(res@->Object_0 =~= caller_view(v@)->Object_0);
            }
            res
        },
    }
}

/// The entries of the result tree built from a response's outputs: one
/// entry per output that carries a value, keyed by
/// `resourceName.outputName`, holding the caller-facing value.
pub open spec fn spec_outputs_tree(
    ts: Seq<(Seq<char>, Seq<char>, Option<SpecValue>)>,
) -> Seq<(Seq<char>, SpecValue)>
    decreases ts.len(),
{
    if ts.len() == 0 {
        Seq::empty()
    } else {
        (match ts[0].2 {
            Some(v) => seq![(ts[0].0 + seq!['.'] + ts[0].1, caller_view(v))],
            None => Seq::<(Seq<char>, SpecValue)>::empty(),
        }) + spec_outputs_tree(ts.drop_first())
    }
}

/// Every value carried by the outputs has blobs small enough to render.
pub open spec fn outputs_blobs_ok(os: Seq<ResourceOutput>) -> bool {
    forall|i: int|
        0 <= i < os.len() ==> ((#[trigger] os[i]).value matches Some(v) ==> blobs_fit(v@))
}

/// Builds the caller-facing result tree from a successful response's
/// outputs.
fn outputs_to_tree(outputs: &Vec<ResourceOutput>) -> (r: StructuredValue)
    requires
        outputs_blobs_ok(outputs@),
    ensures
        r@ == SpecValue::Object(spec_outputs_tree(response_triples(outputs@))),
{
    let ghost ts = response_triples(outputs@);
    let mut entries: Vec<(String, StructuredValue)> = Vec::new();
    let mut i: usize = 0;
    proof {
        assert(ts.skip(0) =~= ts);
        assert(entries_view(entries@) + spec_outputs_tree(ts.skip(0)) =~= spec_outputs_tree(ts));
    }
    while i < outputs.len()
        invariant
            i <= outputs.len(),
            ts == response_triples(outputs@),
            ts.len() == outputs@.len(),
            outputs_blobs_ok(outputs@),
            entries_view(entries@) + spec_outputs_tree(ts.skip(i as int)) == spec_outputs_tree(ts),
        decreases outputs.len() - i,
    {
        let ghost pre = entries_view(entries@);
        match &outputs[i].value {
            Some(v) => {
                let mut key = outputs[i].resource_name.clone();
                push_char(&mut key, '.');
                key.append(outputs[i].output_name.as_str());
                proof {
                    assert(key@ =~= ts[i as int].0 + seq!['.'] + ts[i as int].1);
                    assert(blobs_fit(v@));
                }
                let cv = wire_to_caller(v);
                entries.push((key, cv));
                proof {
                    assert(entries_view(entries@) =~= pre + seq![
                        (ts[i as int].0 + seq!['.'] + ts[i as int].1, caller_view(
                            ts[i as int].2->Some_0,
                        )),
                    ]);
                }
            },
            None => {
                proof {
                    assert(ts[i as int].2 is None);
                    assert(pre + Seq::<(Seq<char>, SpecValue)>::empty() =~= pre);
                }
            },
        }
        proof {
            assert(ts.skip(i as int)[0] == ts[i as int]);
            assert(ts.skip(i as int).drop_first() =~= ts.skip(i + 1 as int));
            let piece = (match ts[i as int].2 {
                Some(v) => seq![(ts[i as int].0 + seq!['.'] + ts[i as int].1, caller_view(v))],
                None => Seq::<(Seq<char>, SpecValue)>::empty(),
            });
            assert(entries_view(entries@) =~= pre + piece);
            assert(pre + (piece + spec_outputs_tree(ts.skip(i + 1 as int))) =~= (pre + piece)
                + spec_outputs_tree(ts.skip(i + 1 as int)));
        }
        i = i + 1;
    }
    proof {
        assert(ts.skip(outputs@.len() as int) =~= Seq::<
            (Seq<char>, Seq<char>, Option<SpecValue>),
        >::empty());
        assert(spec_outputs_tree(ts.skip(outputs@.len() as int)) =~= Seq::<
            (Seq<char>, SpecValue),
        >::empty());
        assert(entries_view(entries@) + Seq::<(Seq<char>, SpecValue)>::empty() =~= entries_view(
            entries@,
        ));
    }
    let r = StructuredValue::Object(entries);
    proof {
        assert(r@->Object_0 =~= spec_outputs_tree(ts));
    }
    r
}

/// Law (operation failure path): a response whose success flag is down
/// surfaces as a stack-operation error carrying the runtime's error
/// text verbatim, and its outputs are ignored; a successful response
/// yields the tree of its outputs and its error text is ignored.
pub fn response_to_result(resp: &PulumiResponse) -> (r: core::result::Result<
    StructuredValue,
    PulumistError,
>)
    requires
        outputs_blobs_ok(resp.outputs@),
    ensures
        resp.success ==> (r matches Ok(t) && t@ == SpecValue::Object(
            spec_outputs_tree(response_triples(resp.outputs@)),
        )),
        !resp.success ==> (r matches Err(e) && e matches PulumistError::StackOperation(m) && m@
            == resp.error@),
{
    if resp.success {
        Ok(outputs_to_tree(&resp.outputs))
    } else {
        Err(PulumistError::StackOperation(resp.error.clone()))
    }
}

impl PulumiDynamic {
    pub fn new() -> Self {
        PulumiDynamic
    }

    /// Assembles and encodes the wire bytes for one stack operation.
    /// Encoding cannot fail for any well-formed request.
    pub fn encode_operation(&self, request: &StackRequest) -> (r: Vec<u8>)
        ensures
            exists|q: PulumiRequest|
                wire_request_matches(q, *request) && r@ == enc_value(
                    #[trigger] spec_request_value(q),
                ),
    {
        let q = build_wire_request(request);
        let bytes = encode_request(&q);
        proof {
            assert(wire_request_matches(q, *request) && bytes@ == enc_value(
                spec_request_value(q),
            ));
        }
        bytes
    }

    /// Decodes an enveloped response buffer and interprets it: a
    /// decode failure is fatal for the call, a response with its
    /// success flag down carries the runtime's error text, and a
    /// successful response yields its output tree.
    pub fn interpret_response(&self, bytes: &Vec<u8>) -> (r: core::result::Result<
        StructuredValue,
        PulumistError,
    >)
        requires
            bytes@.len() <= base64_fit_limit(),
        ensures
            match crate::wire::spec_decode_response(bytes@) {
                Some((success, triples, error)) => {
                    &&& success ==> (r matches Ok(t) && t@ == SpecValue::Object(
                        spec_outputs_tree(triples),
                    ))
                    &&& !success ==> (r matches Err(e)
                        && e matches PulumistError::StackOperation(m) && m@ == error)
                },
                None => r matches Err(e) && e is Serialization,
            },
    {
        let resp = match decode_response(bytes) {
            Ok(p) => p,
            Err(e) => {
                return Err(e);
            },
        };
        proof {
            lemma_response_blobs(bytes@, resp);
        }
        response_to_result(&resp)
    }
}

/// A response decoded from a buffer within the base64 limit has outputs
/// whose blobs all fit.
proof fn lemma_response_blobs(b: Seq<u8>, resp: PulumiResponse)
    requires
        b.len() <= base64_fit_limit(),
        crate::wire::spec_decode_response(b) == Some(
            (resp.success, response_triples(resp.outputs@), resp.error@),
        ),
    ensures
        outputs_blobs_ok(resp.outputs@),
{
    let payload = b.skip(4);
    let (v, used) = crate::codec::dec_value(payload)->Some_0;
    lemma_dec_value_blobs(payload, base64_fit_limit());
    lemma_parse_blobs(v, resp);
}

/// Values extracted from a parsed response are subvalues of the decoded
/// value, so their blob bounds carry over.
proof fn lemma_parse_blobs(v: SpecValue, resp: PulumiResponse)
    requires
        blobs_within(v, base64_fit_limit()),
        crate::wire::parse_response(v) == Some(
            (resp.success, response_triples(resp.outputs@), resp.error@),
        ),
    ensures
        outputs_blobs_ok(resp.outputs@),
{
    let items = v->List_0;
    let os = items[1]->List_0;
    let triples = response_triples(resp.outputs@);
    assert(blobs_within(items[1], base64_fit_limit()));
    assert forall|j: int| 0 <= j < os.len() implies blobs_within(
        #[trigger] os[j],
        base64_fit_limit(),
    ) by {
        assert(items[1]->List_0[j] == os[j]);
    }
    assert forall|i: int| 0 <= i < resp.outputs@.len() implies ((
    #[trigger] resp.outputs@[i]).value matches Some(x) ==> blobs_fit(x@)) by {
        if resp.outputs@[i].value is Some {
            lemma_parse_outputs_blobs(os, triples, i);
            assert(triples[i].2 == Some(resp.outputs@[i].value->Some_0@));
            crate::render::lemma_blobs_within_fit(triples[i].2->Some_0, base64_fit_limit());
        }
    }
}

/// The `i`-th parsed triple's value is inside the `i`-th output value,
/// hence within the same blob bound.
proof fn lemma_parse_outputs_blobs(
    os: Seq<SpecValue>,
    triples: Seq<(Seq<char>, Seq<char>, Option<SpecValue>)>,
    i: int,
)
    requires
        forall|j: int| 0 <= j < os.len() ==> blobs_within(#[trigger] os[j], base64_fit_limit()),
        crate::wire::parse_outputs(os) == Some(triples),
        0 <= i < triples.len(),
        triples[i].2 is Some,
    ensures
        blobs_within(triples[i].2->Some_0, base64_fit_limit()),
    decreases os.len(),
{
    if os.len() > 0 {
        let o = crate::wire::parse_output(os[0])->Some_0;
        let rest = crate::wire::parse_outputs(os.drop_first())->Some_0;
        assert(triples == seq![o] + rest);
        if i == 0 {
            if o.2 is Some {
                assert(o.2->Some_0 == os[0]->List_0[2]);
                assert(blobs_within(os[0], base64_fit_limit()));
            }
        } else {
            assert(forall|j: int|
                0 <= j < os.drop_first().len() ==> blobs_within(
                    #[trigger] os.drop_first()[j],
                    base64_fit_limit(),
                ));
            lemma_parse_outputs_blobs(os.drop_first(), rest, i - 1);
            assert(triples[i] == rest[i - 1]);
        }
    }
}

} // verus!
