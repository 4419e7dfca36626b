//! Catalog atomization: turning a catalog document of tool definitions into
//! records with a compact text view for encoding.
//!
//! Text is handled as UTF-8 bytes throughout, so that truncation limits,
//! which the format states in bytes, mean what they say.

use vstd::prelude::*;
use vstd::string::StringSliceAdditionalSpecFns;
use vstd::string::StrSliceExecFns;
use crate::error::AppError;

verus! {

/// Longest description kept in an inference view, in bytes.
pub const MAX_DESCRIPTION_LENGTH: usize = 500;

/// Longest parameter description kept in a parameter summary, in bytes.
pub const MAX_PARAM_DESC_LENGTH: usize = 50;

/// A word boundary used when truncating descriptions.
pub const SPACE_BYTE: u8 = 32;

/// A sentence boundary used when shortening parameter descriptions.
pub const DOT_BYTE: u8 = 46;

/// The bytes of a string literal, for stating what built text looks like.
pub open spec fn lit(s: &str) -> Seq<u8> {
    s.spec_bytes()
}

/// One property of a tool's input schema: its name, its declared type if any,
/// and its description if any.
#[derive(Debug, Clone)]
pub struct ParamSpec {
    pub name: Vec<u8>,
    pub declared_type: Option<Vec<u8>>,
    pub description: Option<Vec<u8>>,
}

/// A tool's input schema: its properties in document order, and the names the
/// schema marks as required.
#[derive(Debug, Clone)]
pub struct SchemaSpec {
    pub properties: Vec<ParamSpec>,
    pub required: Vec<Vec<u8>>,
}

/// One tool definition as it stands in the catalog document.  A missing or
/// null field of the document is `None` here; `raw_definition` carries the
/// tool's original text through untouched.
#[derive(Debug, Clone)]
pub struct ToolSpec {
    pub name: Option<Vec<u8>>,
    pub description: Option<Vec<u8>>,
    pub input_schema: Option<SchemaSpec>,
    pub raw_definition: Vec<u8>,
}

/// A catalog document.  `tools` is `None` when the document has no
/// `result.tools` array.
#[derive(Debug, Clone)]
pub struct CatalogDoc {
    pub tools: Option<Vec<ToolSpec>>,
}

/// A normalized tool record ready for semantic search.  `inference_view` is
/// the canonical one-line text that gets embedded and reranked.
#[derive(Debug, Clone)]
pub struct EncapureTool {
    pub name: Vec<u8>,
    pub server_origin: Vec<u8>,
    pub inference_view: Vec<u8>,
    pub raw_definition: Vec<u8>,
}

/// The mathematical content of a record: each field as a byte sequence.
pub ghost struct ToolRecordView {
    pub name: Seq<u8>,
    pub origin: Seq<u8>,
    pub inference_view: Seq<u8>,
    pub raw_definition: Seq<u8>,
}

impl EncapureTool {
    /// The record's fields as byte sequences.
    pub open spec fn view_model(&self) -> ToolRecordView {
        ToolRecordView {
            name: self.name@,
            origin: self.server_origin@,
            inference_view: self.inference_view@,
            raw_definition: self.raw_definition@,
        }
    }

    /// Assemble a record from its parts.
    pub fn new(
        name: Vec<u8>,
        server_origin: Vec<u8>,
        inference_view: Vec<u8>,
        raw_definition: Vec<u8>,
    ) -> (r: EncapureTool)
        ensures
            r.name@ == name@,
            r.server_origin@ == server_origin@,
            r.inference_view@ == inference_view@,
            r.raw_definition@ == raw_definition@,
    {
        EncapureTool { name, server_origin, inference_view, raw_definition }
    }
}

/// The index of the last space in `t`, or `-1` when `t` has none.
pub open spec fn spec_last_space(t: Seq<u8>) -> int
    decreases t.len(),
{
    if t.len() == 0 {
        -1
    } else if t[t.len() - 1] == SPACE_BYTE {
        t.len() - 1
    } else {
        spec_last_space(t.drop_last())
    }
}

/// The index of the first dot in `d`, or `-1` when `d` has none.
pub open spec fn spec_first_dot(d: Seq<u8>) -> int
    decreases d.len(),
{
    if d.len() == 0 {
        -1
    } else if d[0] == DOT_BYTE {
        0
    } else {
        let r = spec_first_dot(d.drop_first());
        if r < 0 {
            -1
        } else {
            r + 1
        }
    }
}

proof fn lemma_last_space_found(t: Seq<u8>, p: int)
    requires
        0 <= p < t.len(),
        t[p] == SPACE_BYTE,
        forall|j: int| p < j < t.len() ==> t[j] != SPACE_BYTE,
    ensures
        spec_last_space(t) == p,
    decreases t.len(),
{
    if p < t.len() - 1 {
        lemma_last_space_found(t.drop_last(), p);
    }
}

proof fn lemma_last_space_missing(t: Seq<u8>)
    requires
        forall|j: int| 0 <= j < t.len() ==> t[j] != SPACE_BYTE,
    ensures
        spec_last_space(t) == -1,
    decreases t.len(),
{
    if t.len() > 0 {
        lemma_last_space_missing(t.drop_last());
    }
}

proof fn lemma_first_dot_found(d: Seq<u8>, p: int)
    requires
        0 <= p < d.len(),
        d[p] == DOT_BYTE,
        forall|j: int| 0 <= j < p ==> d[j] != DOT_BYTE,
    ensures
        spec_first_dot(d) == p,
    decreases d.len(),
{
    if p > 0 {
        lemma_first_dot_found(d.drop_first(), p - 1);
    }
}

proof fn lemma_first_dot_missing(d: Seq<u8>)
    requires
        forall|j: int| 0 <= j < d.len() ==> d[j] != DOT_BYTE,
    ensures
        spec_first_dot(d) == -1,
    decreases d.len(),
{
    if d.len() > 0 {
        lemma_first_dot_missing(d.drop_first());
    }
}

/// A description as it stands in an inference view: kept whole up to the
/// byte limit; above it, cut at the limit — or at the last space within the
/// final fifty bytes, when there is one — and closed with `...`.
pub open spec fn spec_truncate_description(desc: Seq<u8>) -> Seq<u8> {
    if desc.len() <= MAX_DESCRIPTION_LENGTH {
        desc
    } else {
        let t = desc.subrange(0, MAX_DESCRIPTION_LENGTH as int);
        let p = spec_last_space(t);
        if p > MAX_DESCRIPTION_LENGTH - MAX_PARAM_DESC_LENGTH {
            t.subrange(0, p) + lit("...")
        } else {
            t + lit("...")
        }
    }
}

/// A parameter description shortened for the summary: its first sentence, or
/// its first fifty bytes, whichever ends sooner.
pub open spec fn spec_brief(d: Seq<u8>) -> Seq<u8> {
    let fd = spec_first_dot(d);
    let end0: int = if fd >= 0 {
        fd
    } else {
        MAX_PARAM_DESC_LENGTH as int
    };
    let end1: int = if end0 <= MAX_PARAM_DESC_LENGTH as int {
        end0
    } else {
        MAX_PARAM_DESC_LENGTH as int
    };
    let end: int = if end1 <= d.len() {
        end1
    } else {
        d.len() as int
    };
    d.subrange(0, end)
}

/// Whether `name` stands in the schema's `required` list.
pub open spec fn spec_is_required(required: Seq<Vec<u8>>, name: Seq<u8>) -> bool {
    exists|i: int| 0 <= i < required.len() && required[i]@ == name
}

/// One parameter as it stands in a summary: `name[*]: type[ (brief)]`, the
/// `*` marking a required parameter, the type `any` when none is declared.
pub open spec fn spec_format_param(p: ParamSpec, req: bool) -> Seq<u8> {
    let typ = match p.declared_type {
        Some(t) => t@,
        None => lit("any"),
    };
    let brief = match p.description {
        Some(d) => spec_brief(d@),
        None => Seq::<u8>::empty(),
    };
    let marker = if req {
        lit("*")
    } else {
        Seq::<u8>::empty()
    };
    if brief.len() == 0 {
        p.name@ + marker + lit(": ") + typ
    } else {
        p.name@ + marker + lit(": ") + typ + lit(" (") + brief + lit(")")
    }
}

/// The formatted parameters, comma-separated, in document order.
pub open spec fn spec_params_joined(props: Seq<ParamSpec>, required: Seq<Vec<u8>>) -> Seq<u8>
    decreases props.len(),
{
    if props.len() == 0 {
        Seq::<u8>::empty()
    } else if props.len() == 1 {
        spec_format_param(props[0], spec_is_required(required, props[0].name@))
    } else {
        spec_params_joined(props.drop_last(), required) + lit(", ") + spec_format_param(
            props.last(),
            spec_is_required(required, props.last().name@),
        )
    }
}

/// The whole parameter summary: `none` without a schema or without
/// properties, else the joined parameters.
pub open spec fn spec_param_summary(schema: Option<SchemaSpec>) -> Seq<u8> {
    match schema {
        None => lit("none"),
        Some(s) => if s.properties@.len() == 0 {
            lit("none")
        } else {
            spec_params_joined(s.properties@, s.required@)
        },
    }
}

/// The canonical one-line text of a record.
pub open spec fn spec_inference_view(
    name: Seq<u8>,
    server: Seq<u8>,
    desc: Seq<u8>,
    params: Seq<u8>,
) -> Seq<u8> {
    lit("TOOL: ") + name + lit(" | CONTEXT: ") + server + lit(" | FUNC: ") + desc + lit(
        " | INPUTS: ",
    ) + params
}

/// The record a tool definition with a name becomes.
pub open spec fn spec_record_of(t: ToolSpec, server: Seq<u8>) -> ToolRecordView {
    let name = match t.name {
        Some(n) => n@,
        None => Seq::<u8>::empty(),
    };
    let desc = match t.description {
        Some(d) => d@,
        None => Seq::<u8>::empty(),
    };
    ToolRecordView {
        name: name,
        origin: server,
        inference_view: spec_inference_view(
            name,
            server,
            spec_truncate_description(desc),
            spec_param_summary(t.input_schema),
        ),
        raw_definition: t.raw_definition@,
    }
}

/// The records of a catalog, in order, definitions without a name skipped.
pub open spec fn spec_atomize(tools: Seq<ToolSpec>, server: Seq<u8>) -> Seq<ToolRecordView>
    decreases tools.len(),
{
    if tools.len() == 0 {
        Seq::<ToolRecordView>::empty()
    } else {
        let rest = spec_atomize(tools.drop_last(), server);
        match tools.last().name {
            Some(_) => rest.push(spec_record_of(tools.last(), server)),
            None => rest,
        }
    }
}

/// The mathematical content of a list of records.
pub open spec fn spec_records_view(recs: Seq<EncapureTool>) -> Seq<ToolRecordView> {
    recs.map_values(|t: EncapureTool| t.view_model())
}

/// Atomization is a function of the document and the server name alone, so
/// atomizing the same document twice produces identical records.
pub proof fn lemma_atomization_idempotent(
    tools: Seq<ToolSpec>,
    server: Seq<u8>,
    r1: Seq<ToolRecordView>,
    r2: Seq<ToolRecordView>,
)
    requires
        r1 == spec_atomize(tools, server),
        r2 == spec_atomize(tools, server),
    ensures
        r1 == r2,
{
}

/// Copy the first `n` bytes of `src`.
pub(crate) fn copy_prefix(src: &Vec<u8>, n: usize) -> (r: Vec<u8>)
    requires
        n <= src@.len(),
    ensures
        r@ == src@.subrange(0, n as int),
{
    let mut r: Vec<u8> = Vec::new();
    for i in 0..n
        invariant
            n <= src@.len(),
            r@ =~= src@.subrange(0, i as int),
    {
        r.push(src[i]);
        assert(r@ =~= src@.subrange(0, i + 1 as int));
    }
    r
}

/// Append all of `src` to `dst`.
pub(crate) fn append_bytes(dst: &mut Vec<u8>, src: &Vec<u8>)
    ensures
        final(dst)@ == old(dst)@ + src@,
{
    let n = src.len();
    for i in 0..n
        invariant
            n == src@.len(),
            dst@ =~= old(dst)@ + src@.subrange(0, i as int),
    {
        dst.push(src[i]);
        assert(dst@ =~= old(dst)@ + src@.subrange(0, i + 1 as int));
    }
    assert(dst@ =~= old(dst)@ + src@);
}

/// Append the bytes of a string literal to `dst`.
pub(crate) fn append_lit(dst: &mut Vec<u8>, s: &str)
    ensures
        final(dst)@ == old(dst)@ + s.spec_bytes(),
{
    let part = s.as_bytes_vec();
    append_bytes(dst, &part);
}

/// Whether two byte strings hold the same bytes.
pub fn bytes_eq(a: &Vec<u8>, b: &Vec<u8>) -> (r: bool)
    ensures
        r == (a@ == b@),
{
    if a.len() != b.len() {
        return false;
    }
    let n = a.len();
    for i in 0..n
        invariant
            n == a@.len() && n == b@.len(),
            forall|j: int| 0 <= j < i ==> a@[j] == b@[j],
    {
        if a[i] != b[i] {
            return false;
        }
    }
    proof {
        assert(a@ =~= b@);
    }
    true
}

/// Truncate a description to the byte limit, preferring the last word
/// boundary in the final stretch, and close a cut description with `...`.
pub fn truncate_description(desc: &Vec<u8>) -> (r: Vec<u8>)
    ensures
        r@ == spec_truncate_description(desc@),
{
    if desc.len() <= MAX_DESCRIPTION_LENGTH {
        let r = copy_prefix(desc, desc.len());
        assert(r@ =~= desc@);
        return r;
    }
    let ghost t = desc@.subrange(0, MAX_DESCRIPTION_LENGTH as int);
    let mut i: usize = MAX_DESCRIPTION_LENGTH;
    let mut found: usize = MAX_DESCRIPTION_LENGTH;
    while i > 0
        invariant
            MAX_DESCRIPTION_LENGTH < desc@.len(),
            t == desc@.subrange(0, MAX_DESCRIPTION_LENGTH as int),
            i <= MAX_DESCRIPTION_LENGTH,
            found <= MAX_DESCRIPTION_LENGTH,
            found == MAX_DESCRIPTION_LENGTH ==> forall|j: int|
                i <= j < MAX_DESCRIPTION_LENGTH ==> t[j] != SPACE_BYTE,
            found < MAX_DESCRIPTION_LENGTH ==> spec_last_space(t) == found as int,
            found < MAX_DESCRIPTION_LENGTH ==> i == 0,
        decreases i,
    {
        if desc[i - 1] == SPACE_BYTE {
            found = i - 1;
            proof {
                assert(t[found as int] == desc@[found as int]);
                lemma_last_space_found(t, found as int);
            }
            i = 0;
        } else {
            i = i - 1;
        }
    }
    if found == MAX_DESCRIPTION_LENGTH {
        proof {
            lemma_last_space_missing(t);
        }
    }
    let cut = if found < MAX_DESCRIPTION_LENGTH && found > MAX_DESCRIPTION_LENGTH
        - MAX_PARAM_DESC_LENGTH {
        found
    } else {
        MAX_DESCRIPTION_LENGTH
    };
    let mut r = copy_prefix(desc, cut);
    append_lit(&mut r, "...");
    proof {
        if cut < MAX_DESCRIPTION_LENGTH {
            assert(desc@.subrange(0, cut as int) =~= t.subrange(0, cut as int));
        } else {
            assert(desc@.subrange(0, cut as int) =~= t);
        }
    }
    r
}

/// The position of the first dot of `d`, if it has one.
fn find_first_dot(d: &Vec<u8>) -> (r: Option<usize>)
    ensures
        match r {
            Some(p) => spec_first_dot(d@) == p as int,
            None => spec_first_dot(d@) == -1,
        },
{
    let n = d.len();
    for i in 0..n
        invariant
            n == d@.len(),
            forall|j: int| 0 <= j < i ==> d@[j] != DOT_BYTE,
    {
        if d[i] == DOT_BYTE {
            proof {
                lemma_first_dot_found(d@, i as int);
            }
            return Some(i);
        }
    }
    proof {
        lemma_first_dot_missing(d@);
    }
    None
}

/// Shorten a parameter description to its first sentence or the byte limit.
fn brief_description(d: &Vec<u8>) -> (r: Vec<u8>)
    ensures
        r@ == spec_brief(d@),
{
    let end0 = match find_first_dot(d) {
        Some(p) => p,
        None => MAX_PARAM_DESC_LENGTH,
    };
    let end1 = if end0 <= MAX_PARAM_DESC_LENGTH {
        end0
    } else {
        MAX_PARAM_DESC_LENGTH
    };
    let end = if end1 <= d.len() {
        end1
    } else {
        d.len()
    };
    copy_prefix(d, end)
}

/// Whether `name` is one of the schema's required parameter names.
pub fn is_required_param(required: &Vec<Vec<u8>>, name: &Vec<u8>) -> (r: bool)
    ensures
        r == spec_is_required(required@, name@),
{
    let n = required.len();
    for i in 0..n
        invariant
            n == required@.len(),
            forall|j: int| 0 <= j < i ==> required@[j]@ != name@,
    {
        if bytes_eq(&required[i], name) {
            return true;
        }
    }
    false
}

/// Format one parameter for the summary.
pub fn format_param(p: &ParamSpec, req: bool) -> (r: Vec<u8>)
    ensures
        r@ == spec_format_param(*p, req),
{
    let mut r: Vec<u8> = Vec::new();
    append_bytes(&mut r, &p.name);
    if req {
        append_lit(&mut r, "*");
    }
    append_lit(&mut r, ": ");
    match &p.declared_type {
        Some(t) => append_bytes(&mut r, t),
        None => append_lit(&mut r, "any"),
    }
    let brief = match &p.description {
        Some(d) => brief_description(d),
        None => Vec::new(),
    };
    if brief.len() > 0 {
        append_lit(&mut r, " (");
        append_bytes(&mut r, &brief);
        append_lit(&mut r, ")");
    }
    assert(r@ =~= spec_format_param(*p, req));
    r
}

/// Build the parameter summary of a tool's input schema.
pub fn build_param_summary(schema: &Option<SchemaSpec>) -> (r: Vec<u8>)
    ensures
        r@ == spec_param_summary(*schema),
{
    match schema {
        None => {
            let mut r: Vec<u8> = Vec::new();
            append_lit(&mut r, "none");
            assert(r@ =~= lit("none"));
            r
        },
        Some(s) => {
            if s.properties.len() == 0 {
                let mut r: Vec<u8> = Vec::new();
                append_lit(&mut r, "none");
                assert(r@ =~= lit("none"));
                return r;
            }
            let n = s.properties.len();
            let mut acc: Vec<u8> = Vec::new();
            for i in 0..n
                invariant
                    n == s.properties@.len(),
                    acc@ == spec_params_joined(s.properties@.subrange(0, i as int), s.required@),
            {
                let req = is_required_param(&s.required, &s.properties[i].name);
                let part = format_param(&s.properties[i], req);
                if i > 0 {
                    append_lit(&mut acc, ", ");
                }
                append_bytes(&mut acc, &part);
                proof {
                    let pref = s.properties@.subrange(0, i + 1 as int);
                    assert(pref.drop_last() =~= s.properties@.subrange(0, i as int));
                    assert(pref.last() == s.properties@[i as int]);
                    assert(acc@ =~= spec_params_joined(pref, s.required@));
                }
            }
            proof {
                assert(s.properties@.subrange(0, n as int) =~= s.properties@);
            }
            acc
        },
    }
}

/// Build the canonical one-line text of a record.
pub fn build_inference_view(
    name: &Vec<u8>,
    server: &Vec<u8>,
    desc: &Vec<u8>,
    params: &Vec<u8>,
) -> (r: Vec<u8>)
    ensures
        r@ == spec_inference_view(name@, server@, desc@, params@),
{
    let mut r: Vec<u8> = Vec::new();
    append_lit(&mut r, "TOOL: ");
    append_bytes(&mut r, name);
    append_lit(&mut r, " | CONTEXT: ");
    append_bytes(&mut r, server);
    append_lit(&mut r, " | FUNC: ");
    append_bytes(&mut r, desc);
    append_lit(&mut r, " | INPUTS: ");
    append_bytes(&mut r, params);
    assert(r@ =~= spec_inference_view(name@, server@, desc@, params@));
    r
}

/// Normalize one tool definition into a record; a definition without a name
/// is rejected.
pub fn normalize_tool(tool: &ToolSpec, server_name: &Vec<u8>) -> (r: Result<EncapureTool, AppError>)
    ensures
        match r {
            Ok(rec) => tool.name is Some && rec.view_model() == spec_record_of(*tool, server_name@),
            Err(e) => {
                &&& tool.name is None
                &&& e matches AppError::ValidationError(m) && m@ == (
                "Tool missing required 'name' field")@
            },
        },
{
    let name = match &tool.name {
        Some(n) => copy_prefix(n, n.len()),
        None => {
            return Err(
                AppError::ValidationError(String::from_str("Tool missing required 'name' field")),
            );
        },
    };
    proof {
        assert(name@ =~= match tool.name {
            Some(n) => n@,
            None => Seq::<u8>::empty(),
        });
    }
    let desc = match &tool.description {
        Some(d) => copy_prefix(d, d.len()),
        None => Vec::new(),
    };
    proof {
        assert(desc@ =~= match tool.description {
            Some(d) => d@,
            None => Seq::<u8>::empty(),
        });
    }
    let truncated = truncate_description(&desc);
    let params = build_param_summary(&tool.input_schema);
    let view = build_inference_view(&name, server_name, &truncated, &params);
    let origin = copy_prefix(server_name, server_name.len());
    let raw = copy_prefix(&tool.raw_definition, tool.raw_definition.len());
    proof {
        assert(origin@ =~= server_name@);
        assert(raw@ =~= tool.raw_definition@);
    }
    Ok(EncapureTool::new(name, origin, view, raw))
}

/// Atomize a catalog document into records.
///
/// A document without a `result.tools` array fails whole.  A definition
/// without a name is skipped; when every definition of a non-empty catalog is
/// skipped, the call fails.
pub fn atomize_tools(doc: &CatalogDoc, server_name: &Vec<u8>) -> (r: Result<
    Vec<EncapureTool>,
    AppError,
>)
    ensures
        match r {
            Ok(recs) => {
                &&& doc.tools matches Some(tools) && spec_records_view(recs@) == spec_atomize(
                    tools@,
                    server_name@,
                )
                &&& doc.tools matches Some(tools) && (tools@.len() > 0 ==> recs@.len() > 0)
            },
            Err(e) => {
                ||| {
                    &&& doc.tools is None
                    &&& e matches AppError::ValidationError(m) && m@ == (
                    "Expected 'result.tools' array in MCP response")@
                }
                ||| {
                    &&& doc.tools matches Some(tools) && tools@.len() > 0 && spec_atomize(
                        tools@,
                        server_name@,
                    ).len() == 0
                    &&& e matches AppError::ValidationError(m) && m@ == (
                    "All tool definitions failed to parse")@
                }
            },
        },
{
    let tools = match &doc.tools {
        Some(t) => t,
        None => {
            return Err(
                AppError::ValidationError(
                    String::from_str("Expected 'result.tools' array in MCP response"),
                ),
            );
        },
    };
    let n = tools.len();
    let mut results: Vec<EncapureTool> = Vec::new();
    for i in 0..n
        invariant
            n == tools@.len(),
            spec_records_view(results@) == spec_atomize(
                tools@.subrange(0, i as int),
                server_name@,
            ),
    {
        let ghost pref = tools@.subrange(0, i + 1 as int);
        match normalize_tool(&tools[i], server_name) {
            Ok(rec) => {
                results.push(rec);
            },
            Err(_) => {},
        }
        proof {
            assert(pref.drop_last() =~= tools@.subrange(0, i as int));
            assert(pref.last() == tools@[i as int]);
            assert(spec_records_view(results@) =~= spec_atomize(pref, server_name@));
        }
    }
    proof {
        assert(tools@.subrange(0, n as int) =~= tools@);
    }
    if results.len() == 0 && tools.len() > 0 {
        return Err(
            AppError::ValidationError(String::from_str("All tool definitions failed to parse")),
        );
    }
    Ok(results)
}

} // verus!
