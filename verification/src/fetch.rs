use vstd::prelude::*;
use crate::errors::{IoKind, LoadError, ModuleType, RequestedKind};
use crate::resolve::{first_slash_from, has_authority};
use crate::specifier::{is_absolute_seq, scheme_end_of, ModuleSpecifier};
use crate::transpile::{lowered_ok, maybe_transpile};

verus! {

// Scheme names as byte values: "file" is 102 105 108 101, "http" is
// 104 116 116 112, "https" adds 115, "data" is 100 97 116 97.

/// The origin family an absolute identifier's scheme selects.
#[derive(Clone, Copy, PartialEq, Eq, Structural, Debug)]
pub enum SchemeKind {
    File,
    Http,
    Https,
    Data,
    Other,
}

/// The scheme of `s`, without its trailing `:`.
pub open spec fn scheme_seq(s: Seq<u8>) -> Seq<u8> {
    s.subrange(0, scheme_end_of(s))
}

pub open spec fn scheme_kind_of(s: Seq<u8>) -> SchemeKind {
    if scheme_seq(s) == seq![102u8, 105u8, 108u8, 101u8] {
        SchemeKind::File
    } else if scheme_seq(s) == seq![104u8, 116u8, 116u8, 112u8] {
        SchemeKind::Http
    } else if scheme_seq(s) == seq![104u8, 116u8, 116u8, 112u8, 115u8] {
        SchemeKind::Https
    } else if scheme_seq(s) == seq![100u8, 97u8, 116u8, 97u8] {
        SchemeKind::Data
    } else {
        SchemeKind::Other
    }
}

/// Which origin family serves `m`.
pub fn classify_scheme(m: &ModuleSpecifier) -> (r: SchemeKind)
    requires
        m.wf(),
    ensures
        r == scheme_kind_of(m@),
{
    let b = m.as_bytes();
    let e = m.scheme_end();
    proof {
        assert(scheme_seq(m@) =~= m@.subrange(0, e as int));
        assert(scheme_seq(m@).len() == e as int);
    }
    if e == 4 && b[0] == 102 && b[1] == 105 && b[2] == 108 && b[3] == 101 {
        proof {
            assert(scheme_seq(m@) =~= seq![102u8, 105u8, 108u8, 101u8]);
        }
        SchemeKind::File
    } else if e == 4 && b[0] == 104 && b[1] == 116 && b[2] == 116 && b[3] == 112 {
        proof {
            assert(scheme_seq(m@) =~= seq![104u8, 116u8, 116u8, 112u8]);
            assert(scheme_seq(m@)[0] != 102);
        }
        SchemeKind::Http
    } else if e == 5 && b[0] == 104 && b[1] == 116 && b[2] == 116 && b[3] == 112 && b[4] == 115 {
        proof {
            assert(scheme_seq(m@) =~= seq![104u8, 116u8, 116u8, 112u8, 115u8]);
        }
        SchemeKind::Https
    } else if e == 4 && b[0] == 100 && b[1] == 97 && b[2] == 116 && b[3] == 97 {
        proof {
            assert(scheme_seq(m@) =~= seq![100u8, 97u8, 116u8, 97u8]);
            assert(scheme_seq(m@)[0] != 102);
            assert(scheme_seq(m@)[0] != 104);
        }
        SchemeKind::Data
    } else {
        proof {
            let ss = scheme_seq(m@);
            assert(forall|i: int| 0 <= i < e as int ==> ss[i] == m@[i]);
            if ss == seq![102u8, 105u8, 108u8, 101u8] {
                assert(ss.len() == 4);
                assert(ss[0] == 102 && ss[1] == 105 && ss[2] == 108 && ss[3] == 101);
            }
            if ss == seq![104u8, 116u8, 116u8, 112u8] {
                assert(ss[0] == 104 && ss[1] == 116 && ss[2] == 116 && ss[3] == 112);
            }
            if ss == seq![104u8, 116u8, 116u8, 112u8, 115u8] {
                assert(ss[0] == 104 && ss[1] == 116 && ss[2] == 116 && ss[3] == 112 && ss[4]
                    == 115);
            }
            if ss == seq![100u8, 97u8, 116u8, 97u8] {
                assert(ss[0] == 100 && ss[1] == 97 && ss[2] == 116 && ss[3] == 97);
            }
        }
        SchemeKind::Other
    }
}

/// The module kind each request maps to; `None` marks an unsupported
/// explicit kind, which must never be silently coerced.
pub open spec fn module_type_spec(requested: RequestedKind) -> Option<ModuleType> {
    match requested {
        RequestedKind::Default => Some(ModuleType::Script),
        RequestedKind::StructuredData => Some(ModuleType::StructuredData),
        RequestedKind::Other => None,
    }
}

/// Map a request to the kind it is served as, or refuse it.
pub fn module_type_for(requested: RequestedKind) -> (r: Result<ModuleType, LoadError>)
    ensures
        match r {
            Ok(t) => module_type_spec(requested) == Some(t),
            Err(e) => module_type_spec(requested) is None && e == LoadError::UnsupportedModuleType,
        },
{
    match requested {
        RequestedKind::Default => Ok(ModuleType::Script),
        RequestedKind::StructuredData => Ok(ModuleType::StructuredData),
        RequestedKind::Other => Err(LoadError::UnsupportedModuleType),
    }
}

/// An ASCII hex digit.
pub open spec fn is_hex_digit(c: u8) -> bool {
    (48 <= c && c <= 57) || (97 <= c && c <= 102) || (65 <= c && c <= 70)
}

/// Its numeric value.
pub open spec fn hex_val(c: u8) -> u8 {
    if 48 <= c && c <= 57 {
        (c - 48) as u8
    } else if 97 <= c && c <= 102 {
        (c - 87) as u8
    } else if 65 <= c && c <= 70 {
        (c - 55) as u8
    } else {
        0
    }
}

/// Percent-decoding of `s`: each `%` must introduce two hex digits;
/// anything else passes through. `None` on a malformed escape.
pub open spec fn percent_decode_seq(s: Seq<u8>) -> Option<Seq<u8>>
    decreases s.len(),
{
    if s.len() == 0 {
        Some(Seq::empty())
    } else if s[0] == 37 {
        if s.len() >= 3 && is_hex_digit(s[1]) && is_hex_digit(s[2]) {
            match percent_decode_seq(s.skip(3)) {
                Some(rest) => Some(seq![(hex_val(s[1]) * 16 + hex_val(s[2])) as u8] + rest),
                None => None,
            }
        } else {
            None
        }
    } else {
        match percent_decode_seq(s.skip(1)) {
            Some(rest) => Some(seq![s[0]] + rest),
            None => None,
        }
    }
}

fn hex_digit(c: u8) -> (r: bool)
    ensures
        r == is_hex_digit(c),
{
    (48 <= c && c <= 57) || (97 <= c && c <= 102) || (65 <= c && c <= 70)
}

fn hex_value(c: u8) -> (r: u8)
    ensures
        r == hex_val(c),
{
    if 48 <= c && c <= 57 {
        c - 48
    } else if 97 <= c && c <= 102 {
        c - 87
    } else if 65 <= c && c <= 70 {
        c - 55
    } else {
        0
    }
}

/// Decode the percent-escapes of `s[from..]`.
pub fn percent_decode_from(s: &Vec<u8>, from: usize) -> (r: Option<Vec<u8>>)
    requires
        from <= s@.len(),
    ensures
        match r {
            Some(out) => percent_decode_seq(s@.skip(from as int)) == Some(out@),
            None => percent_decode_seq(s@.skip(from as int)) is None,
        },
{
    let ghost whole = s@.skip(from as int);
    let mut out: Vec<u8> = Vec::new();
    let mut i: usize = from;
    proof {
        assert(Seq::<u8>::empty() + whole =~= whole);
    }
    while i < s.len()
        invariant
            from <= i <= s@.len(),
            whole == s@.skip(from as int),
            match percent_decode_seq(s@.skip(i as int)) {
                Some(rest) => percent_decode_seq(whole) == Some(out@ + rest),
                None => percent_decode_seq(whole) is None,
            },
        decreases s@.len() - i,
    {
        let c = s[i];
        let ghost tail = s@.skip(i as int);
        if c == 37 {
            if i + 1 < s.len() && i + 2 < s.len() && hex_digit(s[i + 1]) && hex_digit(s[i + 2]) {
                let v = hex_value(s[i + 1]) * 16 + hex_value(s[i + 2]);
                let ghost out0 = out@;
                out.push(v);
                proof {
                    assert(tail.skip(3) =~= s@.skip(i + 3 as int));
                    assert(tail[1] == s@[i + 1] && tail[2] == s@[i + 2]);
                    if percent_decode_seq(s@.skip(i + 3 as int)) is Some {
                        let rest = percent_decode_seq(s@.skip(i + 3 as int)).unwrap();
                        assert(out@ + rest =~= out0 + (seq![v] + rest));
                    }
                }
                i += 3;
            } else {
                proof {
                    assert(percent_decode_seq(tail) is None);
                }
                return None;
            }
        } else {
            let ghost out0 = out@;
            out.push(c);
            proof {
                assert(tail.skip(1) =~= s@.skip(i + 1 as int));
                assert(tail[0] == s@[i as int]);
                if percent_decode_seq(s@.skip(i + 1 as int)) is Some {
                    let rest = percent_decode_seq(s@.skip(i + 1 as int)).unwrap();
                    assert(out@ + rest =~= out0 + (seq![c] + rest));
                }
            }
            i += 1;
        }
    }
    proof {
        assert(s@.skip(i as int) =~= Seq::<u8>::empty());
        assert(out@ + Seq::<u8>::empty() =~= out@);
    }
    Some(out)
}

/// The filesystem path a `file` identifier decodes to: an empty
/// authority, then the percent-decoded path. `None` when the identifier
/// cannot name a local file.
pub open spec fn file_path_of(s: Seq<u8>) -> Option<Seq<u8>> {
    let e = scheme_end_of(s);
    if has_authority(s, e) && first_slash_from(s, e + 3) == e + 3 {
        percent_decode_seq(s.skip(e + 3))
    } else {
        None
    }
}

/// Decode a `file` identifier to a filesystem path.
pub fn to_file_path(m: &ModuleSpecifier) -> (r: Option<Vec<u8>>)
    requires
        m.wf(),
    ensures
        match r {
            Some(p) => file_path_of(m@) == Some(p@),
            None => file_path_of(m@) is None,
        },
{
    let b = m.as_bytes();
    let n = b.len();
    let e = m.scheme_end();
    if n - e > 2 && b[e + 1] == 47 && b[e + 2] == 47 {
        if e + 3 == n || b[e + 3] == 47 {
            proof {
                assert(first_slash_from(m@, e + 3 as int) == e + 3 as int);
            }
            percent_decode_from(b, e + 3)
        } else {
            proof {
                crate::resolve::lemma_first_slash_range(m@, e + 4);
                assert(first_slash_from(m@, e + 3 as int) == first_slash_from(m@, e + 4 as int));
                assert(first_slash_from(m@, e + 3 as int) != e + 3 as int);
            }
            None
        }
    } else {
        None
    }
}

/// What decoding the inline payload of a data URL yields; it depends on
/// the URL text alone, and `None` marks a malformed URL or payload.
pub uninterp spec fn data_decoded(s: Seq<u8>) -> Option<Seq<u8>>;

/// Relies on data_url::DataUrl::process and DataUrl::decode_to_vec: the
/// decoded body of a data URL depends on the URL text alone; a URL that
/// is not text, is malformed, or carries an undecodable payload is
/// rejected.
#[verifier::external_body]
fn decode_data_specifier(s: &Vec<u8>) -> (r: Result<Vec<u8>, ()>)
    ensures
        match r {
            Ok(b) => data_decoded(s@) == Some(b@),
            Err(_) => data_decoded(s@) is None,
        },
{
    let text = core::str::from_utf8(s).map_err(|_| ())?;
    let url = data_url::DataUrl::process(text).map_err(|_| ())?;
    match url.decode_to_vec() {
        Ok((body, _)) => Ok(body),
        Err(_) => Err(()),
    }
}

/// Immutable record of one fetched module.
#[derive(Debug)]
pub struct ModuleSource {
    /// The kind it is served as.
    pub module_type: ModuleType,
    /// The source text, after any lowering.
    pub bytes: Vec<u8>,
    /// The identifier it was requested under.
    pub specifier: ModuleSpecifier,
    /// Set only when the origin redirected: the identifier the content
    /// effectively came from.
    pub resolved_specifier: Option<ModuleSpecifier>,
}

impl ModuleSource {
    pub open spec fn wf(&self) -> bool {
        &&& self.specifier.wf()
        &&& match self.resolved_specifier {
            Some(rs) => rs.wf() && rs@ != self.specifier@,
            None => true,
        }
    }
}

/// Byte-for-byte comparison.
pub fn bytes_eq(a: &Vec<u8>, b: &Vec<u8>) -> (r: bool)
    ensures
        r == (a@ == b@),
{
    if a.len() != b.len() {
        return false;
    }
    let mut i: usize = 0;
    while i < a.len()
        invariant
            i <= a@.len(),
            a@.len() == b@.len(),
            forall|j: int| 0 <= j < i ==> a@[j] == b@[j],
        decreases a@.len() - i,
    {
        if a[i] != b[i] {
            return false;
        }
        i += 1;
    }
    proof {
        assert(a@ =~= b@);
    }
    true
}

/// What the host hands back after performing the planned I/O.
#[derive(Debug)]
pub enum FetchOutcome {
    /// Bytes read from the local filesystem.
    FileBytes(Vec<u8>),
    /// The local read failed.
    FileError(IoKind),
    /// A response arrived: its status, its body, and the final URL after
    /// any redirects the origin followed.
    HttpResponse { status: u16, bytes: Vec<u8>, final_url: Vec<u8> },
    /// The transport failed before any response arrived.
    HttpTransportError,
}

/// The I/O the fetcher asks the host to perform for a specifier.
#[derive(Debug)]
pub enum FetchPlan {
    /// Read this filesystem path.
    ReadFile(Vec<u8>),
    /// Issue a GET for the specifier itself.
    HttpGet,
    /// No I/O: the payload is inline in the specifier.
    DecodeData,
}

/// Decide how a specifier is to be fetched. An unsupported explicit
/// module kind is refused before any I/O is planned; an unsupported
/// scheme, or a `file` identifier that names no local path, is refused
/// here too.
pub fn plan_fetch(m: &ModuleSpecifier, requested: RequestedKind) -> (r: Result<
    FetchPlan,
    LoadError,
>)
    requires
        m.wf(),
    ensures
        match r {
            Ok(plan) => {
                &&& module_type_spec(requested) is Some
                &&& match plan {
                    FetchPlan::ReadFile(path) => scheme_kind_of(m@) == SchemeKind::File
                        && file_path_of(m@) == Some(path@),
                    FetchPlan::HttpGet => scheme_kind_of(m@) == SchemeKind::Http || scheme_kind_of(
                        m@,
                    ) == SchemeKind::Https,
                    FetchPlan::DecodeData => scheme_kind_of(m@) == SchemeKind::Data,
                }
            },
            Err(e) => {
                ||| (module_type_spec(requested) is None && e == LoadError::UnsupportedModuleType)
                ||| (module_type_spec(requested) is Some && scheme_kind_of(m@) == SchemeKind::Other
                    && e == LoadError::UnsupportedScheme)
                ||| (module_type_spec(requested) is Some && scheme_kind_of(m@) == SchemeKind::File
                    && file_path_of(m@) is None && e == LoadError::InvalidFileReference)
            },
        },
{
    if let RequestedKind::Other = requested {
        return Err(LoadError::UnsupportedModuleType);
    }
    match classify_scheme(m) {
        SchemeKind::File => match to_file_path(m) {
            Some(path) => Ok(FetchPlan::ReadFile(path)),
            None => Err(LoadError::InvalidFileReference),
        },
        SchemeKind::Http => Ok(FetchPlan::HttpGet),
        SchemeKind::Https => Ok(FetchPlan::HttpGet),
        SchemeKind::Data => Ok(FetchPlan::DecodeData),
        SchemeKind::Other => Err(LoadError::UnsupportedScheme),
    }
}

/// Fetch a `data` specifier: decode the inline payload, pick the module
/// kind, and lower typed-superset source. No I/O is involved.
pub fn fetch_data(m: &ModuleSpecifier, requested: RequestedKind) -> (r: Result<
    ModuleSource,
    LoadError,
>)
    requires
        m.wf(),
    ensures
        match r {
            Ok(src) => {
                &&& src.wf() && src.specifier@ == m@ && src.resolved_specifier is None
                &&& module_type_spec(requested) == Some(src.module_type)
                &&& data_decoded(m@) matches Some(raw) && lowered_ok(m@, raw, src.bytes@)
            },
            Err(e) => {
                ||| (module_type_spec(requested) is None && e == LoadError::UnsupportedModuleType)
                ||| (module_type_spec(requested) is Some && data_decoded(m@) is None && e
                    == LoadError::InvalidDataEncoding)
                ||| (module_type_spec(requested) is Some && (data_decoded(m@) matches Some(raw)
                    && crate::transpile::lowering_fails(m@, raw)) && (
                e matches LoadError::Transpile { .. }))
            },
        },
{
    let module_type = match module_type_for(requested) {
        Ok(t) => t,
        Err(e) => {
            return Err(e);
        },
    };
    let raw = match decode_data_specifier(m.as_bytes()) {
        Ok(b) => b,
        Err(_) => {
            return Err(LoadError::InvalidDataEncoding);
        },
    };
    let bytes = match maybe_transpile(m, raw) {
        Ok(b) => b,
        Err(e) => {
            return Err(e);
        },
    };
    Ok(
        ModuleSource {
            module_type,
            bytes,
            specifier: ModuleSpecifier::from_absolute(m.to_bytes()),
            resolved_specifier: None,
        },
    )
}

/// What a successfully completed fetch of `m` must have produced: the
/// requested kind served, the outcome's bytes lowered when `m` names
/// typed-superset source, and the final identifier recorded exactly
/// when the origin redirected.
pub open spec fn completed_source(
    m: Seq<u8>,
    requested: RequestedKind,
    outcome: FetchOutcome,
    src: ModuleSource,
) -> bool {
    &&& src.wf() && src.specifier@ == m
    &&& module_type_spec(requested) == Some(src.module_type)
    &&& match outcome {
        FetchOutcome::FileBytes(b) => lowered_ok(m, b@, src.bytes@)
            && src.resolved_specifier is None,
        FetchOutcome::HttpResponse { status, bytes, final_url } => {
            &&& 200 <= status < 300
            &&& lowered_ok(m, bytes@, src.bytes@)
            &&& (final_url@ == m ==> src.resolved_specifier is None)
            &&& (final_url@ != m ==> (src.resolved_specifier matches Some(rs) && rs@
                == final_url@))
        },
        _ => false,
    }
}

/// The error a fetch of `m` must report for this outcome: an
/// unsupported kind first, else the error the outcome dictates.
pub open spec fn fetch_failure(
    m: Seq<u8>,
    requested: RequestedKind,
    outcome: FetchOutcome,
    e: LoadError,
) -> bool {
    ||| (module_type_spec(requested) is None && e == LoadError::UnsupportedModuleType)
    ||| (module_type_spec(requested) is Some && match outcome {
        FetchOutcome::FileBytes(b) => crate::transpile::lowering_fails(m, b@) && (
        e matches LoadError::Transpile { .. }),
        FetchOutcome::FileError(k) => e == LoadError::Io(k),
        FetchOutcome::HttpResponse { status, bytes, final_url } => {
            ||| (!(200 <= status < 300) && e == LoadError::HttpStatus(status))
            ||| (200 <= status < 300 && final_url@ != m && !is_absolute_seq(final_url@) && e
                == LoadError::Network)
            ||| (200 <= status < 300 && crate::transpile::lowering_fails(m, bytes@) && (
            e matches LoadError::Transpile { .. }))
        },
        FetchOutcome::HttpTransportError => e == LoadError::Network,
    })
}

/// Turn the host's I/O outcome into a loaded module or the error the
/// outcome dictates: a failed read keeps its I/O kind, a transport
/// failure is a network error, a non-success status keeps its code, a
/// redirected response records the final identifier, and fetched bytes
/// are lowered when the specifier names typed-superset source.
pub fn complete_fetch(m: &ModuleSpecifier, requested: RequestedKind, outcome: FetchOutcome) -> (r:
    Result<ModuleSource, LoadError>)
    requires
        m.wf(),
    ensures
        match r {
            Ok(src) => completed_source(m@, requested, outcome, src),
            Err(e) => fetch_failure(m@, requested, outcome, e),
        },
{
    let module_type = match module_type_for(requested) {
        Ok(t) => t,
        Err(e) => {
            return Err(e);
        },
    };
    match outcome {
        FetchOutcome::FileBytes(b) => {
            let bytes = match maybe_transpile(m, b) {
                Ok(out) => out,
                Err(e) => {
                    return Err(e);
                },
            };
            Ok(
                ModuleSource {
                    module_type,
                    bytes,
                    specifier: ModuleSpecifier::from_absolute(m.to_bytes()),
                    resolved_specifier: None,
                },
            )
        },
        FetchOutcome::FileError(k) => Err(LoadError::Io(k)),
        FetchOutcome::HttpTransportError => Err(LoadError::Network),
        FetchOutcome::HttpResponse { status, bytes, final_url } => {
            if !(200 <= status && status < 300) {
                return Err(LoadError::HttpStatus(status));
            }
            let resolved_specifier: Option<ModuleSpecifier>;
            if bytes_eq(&final_url, m.as_bytes()) {
                resolved_specifier = None;
            } else {
                match ModuleSpecifier::from_bytes(final_url) {
                    Ok(rs) => {
                        resolved_specifier = Some(rs);
                    },
                    Err(_) => {
                        return Err(LoadError::Network);
                    },
                }
            }
            let lowered = match maybe_transpile(m, bytes) {
                Ok(out) => out,
                Err(e) => {
                    return Err(e);
                },
            };
            Ok(
                ModuleSource {
                    module_type,
                    bytes: lowered,
                    specifier: ModuleSpecifier::from_absolute(m.to_bytes()),
                    resolved_specifier,
                },
            )
        },
    }
}

} // verus!
