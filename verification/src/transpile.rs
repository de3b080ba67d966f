use vstd::prelude::*;
use crate::errors::LoadError;
use crate::specifier::ModuleSpecifier;

verus! {

/// The identifier names typed-superset source: its trailing path segment
/// carries the `.ts` marker (46, 116, 115). An identifier shorter than
/// the marker never matches.
pub open spec fn is_typed_superset(s: Seq<u8>) -> bool {
    s.len() >= 3 && s[s.len() - 3] == 46 && s[s.len() - 2] == 116 && s[s.len() - 1] == 115
}

/// Exact suffix check for the typed-superset marker.
pub fn ends_with_ts(m: &ModuleSpecifier) -> (r: bool)
    ensures
        r == is_typed_superset(m@),
{
    let b = m.as_bytes();
    let n = b.len();
    n >= 3 && b[n - 3] == 46 && b[n - 2] == 116 && b[n - 1] == 115
}

/// What lowering typed-superset source text yields: the native source
/// when the text parses and emits, `None` when it does not. Both the
/// outcome and the emitted text depend on the source text alone.
pub uninterp spec fn ts_lower_result(source: Seq<u8>) -> Option<Seq<u8>>;

/// What a successful transpilation step returns: typed-superset source
/// is lowered, anything else passes through unchanged.
pub open spec fn lowered_ok(spec_id: Seq<u8>, raw: Seq<u8>, out: Seq<u8>) -> bool {
    if is_typed_superset(spec_id) {
        ts_lower_result(raw) == Some(out)
    } else {
        out == raw
    }
}

/// When the transpilation step must fail: typed-superset source that
/// does not lower.
pub open spec fn lowering_fails(spec_id: Seq<u8>, raw: Seq<u8>) -> bool {
    is_typed_superset(spec_id) && ts_lower_result(raw) is None
}

/// Relies on deno_ast::parse_module and deno_ast::ParsedSource::transpile
/// (the parsed program cannot cross a contract boundary, so one body
/// holds the pipeline). The parse is labeled with a fixed placeholder
/// identifier, so the emitted text, its inline source map included,
/// depends on the source text alone. A parse failure reports the
/// offending 1-indexed line and column; source that is not text, or an
/// emitter failure, reports (0, 0).
#[verifier::external_body]
fn lower_typed_source(source: &Vec<u8>) -> (r: Result<Vec<u8>, (usize, usize)>)
    ensures
        (r is Ok) == (ts_lower_result(source@) is Some),
        r matches Ok(out) ==> ts_lower_result(source@) == Some(out@),
{
    let text = match core::str::from_utf8(source) {
        Ok(t) => t,
        Err(_) => return Err((0, 0)),
    };
    let parsed = deno_ast::parse_module(deno_ast::ParseParams {
        specifier: deno_ast::ModuleSpecifier::parse("file:///main.ts").unwrap(),
        text: text.into(), media_type: deno_ast::MediaType::TypeScript,
        capture_tokens: false, scope_analysis: false, maybe_syntax: None,
    });
    match parsed {
        Ok(p) => p.transpile(&Default::default(), &Default::default(), &Default::default())
            .map(|t| t.into_source().text.into_bytes()).map_err(|_| (0, 0)),
        Err(d) => Err((d.display_position().line_number, d.display_position().column_number)),
    }
}

/// Lower `bytes` when `specifier` names typed-superset source, else hand
/// them back unchanged. Lowering failures surface as `Transpile` errors
/// carrying the offending location; they never abort the process.
pub fn maybe_transpile(specifier: &ModuleSpecifier, bytes: Vec<u8>) -> (r: Result<
    Vec<u8>,
    LoadError,
>)
    ensures
        match r {
            Ok(out) => lowered_ok(specifier@, bytes@, out@),
            Err(e) => e matches LoadError::Transpile { .. },
        },
        (r is Err) == lowering_fails(specifier@, bytes@),
        !is_typed_superset(specifier@) ==> (r matches Ok(out) && out@ == bytes@),
{
    if ends_with_ts(specifier) {
        match lower_typed_source(&bytes) {
            Ok(out) => Ok(out),
            Err((line, column)) => Err(LoadError::Transpile { line, column }),
        }
    } else {
        Ok(bytes)
    }
}

} // verus!
