use vstd::prelude::*;
use crate::errors::{IoKind, LoadError, ModuleType, RequestedKind};
use crate::fetch::{complete_fetch, bytes_eq, FetchOutcome};
use crate::loader::SimpleModuleLoader;
use crate::resolve::{dot_prefix, dotdot_prefix, resolve, resolve_seq, append_from};
use crate::specifier::{
    copy_bytes, find_scheme_end, is_absolute_seq, scheme_end_at, ModuleSpecifier,
};

verus! {

/// The phases one run passes through; `Failed` is reachable from any
/// working phase and both `Completed` and `Failed` are terminal.
#[derive(Clone, Copy, PartialEq, Eq, Structural, Debug)]
pub enum RunPhase {
    Created,
    EntryResolved,
    GraphLoading,
    Evaluating,
    Draining,
    Completed,
    Failed,
}

/// What the host or the embedded runtime reports between phases.
#[derive(Clone, Copy, PartialEq, Eq, Structural, Debug)]
pub enum RunEvent {
    EntryResolutionSucceeded,
    EntryResolutionFailed(LoadError),
    LoadingStarted,
    GraphLoaded,
    GraphLoadFailed(LoadError),
    EvaluationSucceeded,
    EvaluationFailed,
    DrainQuiescent,
    DrainFailed,
}

/// One run's lifecycle: its phase, and the first error observed, which
/// is the only one ever reported.
pub struct RunMachine {
    pub phase: RunPhase,
    pub first_error: Option<LoadError>,
}

impl RunMachine {
    /// An error is recorded exactly in the failed phase.
    pub open spec fn wf(&self) -> bool {
        (self.first_error is Some) <==> self.phase == RunPhase::Failed
    }

    pub fn new() -> (r: RunMachine)
        ensures
            r.wf(),
            r.phase == RunPhase::Created,
            r.first_error is None,
    {
        RunMachine { phase: RunPhase::Created, first_error: None }
    }

    /// Account one event: the full transition table of a run. Terminal
    /// phases absorb every further event, so the first error observed is
    /// the one reported; an event that does not belong to the current
    /// phase leaves the machine unchanged.
    pub fn advance(&mut self, event: RunEvent)
        requires
            old(self).wf(),
        ensures
            final(self).wf(),
            old(self).phase == RunPhase::Failed ==> *final(self) == *old(self),
            old(self).phase == RunPhase::Completed ==> *final(self) == *old(self),
            old(self).phase == RunPhase::Created ==> match event {
                RunEvent::EntryResolutionSucceeded => final(self).phase == RunPhase::EntryResolved
                    && final(self).first_error is None,
                RunEvent::EntryResolutionFailed(e) => final(self).phase == RunPhase::Failed
                    && final(self).first_error == Some(e),
                _ => *final(self) == *old(self),
            },
            old(self).phase == RunPhase::EntryResolved ==> match event {
                RunEvent::LoadingStarted => final(self).phase == RunPhase::GraphLoading && final(self).first_error is None,
                _ => *final(self) == *old(self),
            },
            old(self).phase == RunPhase::GraphLoading ==> match event {
                RunEvent::GraphLoaded => final(self).phase == RunPhase::Evaluating && final(self).first_error is None,
                RunEvent::GraphLoadFailed(e) => final(self).phase == RunPhase::Failed && final(self).first_error == Some(e),
                _ => *final(self) == *old(self),
            },
            old(self).phase == RunPhase::Evaluating ==> match event {
                RunEvent::EvaluationSucceeded => final(self).phase == RunPhase::Draining && final(self).first_error is None,
                RunEvent::EvaluationFailed => final(self).phase == RunPhase::Failed && final(self).first_error == Some(LoadError::Evaluation),
                _ => *final(self) == *old(self),
            },
            old(self).phase == RunPhase::Draining ==> match event {
                RunEvent::DrainQuiescent => final(self).phase == RunPhase::Completed && final(self).first_error is None,
                RunEvent::DrainFailed => final(self).phase == RunPhase::Failed && final(self).first_error == Some(LoadError::Evaluation),
                _ => *final(self) == *old(self),
            },
    {
        match self.phase {
            RunPhase::Failed => {},
            RunPhase::Completed => {},
            RunPhase::Created => match event {
                RunEvent::EntryResolutionSucceeded => {
                    self.phase = RunPhase::EntryResolved;
                },
                RunEvent::EntryResolutionFailed(e) => {
                    self.phase = RunPhase::Failed;
                    self.first_error = Some(e);
                },
                _ => {},
            },
            RunPhase::EntryResolved => match event {
                RunEvent::LoadingStarted => {
                    self.phase = RunPhase::GraphLoading;
                },
                _ => {},
            },
            RunPhase::GraphLoading => match event {
                RunEvent::GraphLoaded => {
                    self.phase = RunPhase::Evaluating;
                },
                RunEvent::GraphLoadFailed(e) => {
                    self.phase = RunPhase::Failed;
                    self.first_error = Some(e);
                },
                _ => {},
            },
            RunPhase::Evaluating => match event {
                RunEvent::EvaluationSucceeded => {
                    self.phase = RunPhase::Draining;
                },
                RunEvent::EvaluationFailed => {
                    self.phase = RunPhase::Failed;
                    self.first_error = Some(LoadError::Evaluation);
                },
                _ => {},
            },
            RunPhase::Draining => match event {
                RunEvent::DrainQuiescent => {
                    self.phase = RunPhase::Completed;
                },
                RunEvent::DrainFailed => {
                    self.phase = RunPhase::Failed;
                    self.first_error = Some(LoadError::Evaluation);
                },
                _ => {},
            },
        }
    }
}

// "file://" is 102 105 108 101 58 47 47.

/// The referrer an entry path is resolved against: the base directory
/// as a `file` identifier, with a trailing `/`.
pub open spec fn entry_referrer_seq(base: Seq<u8>) -> Seq<u8> {
    seq![102u8, 105u8, 108u8, 101u8, 58u8, 47u8, 47u8] + base + seq![47u8]
}

/// A bare entry path is taken relative to the base directory.
pub open spec fn entry_raw_seq(p: Seq<u8>) -> Seq<u8> {
    if !is_absolute_seq(p) && !(p.len() >= 1 && p[0] == 47) && !dot_prefix(p) && !dotdot_prefix(p) {
        seq![46u8, 47u8] + p
    } else {
        p
    }
}

/// Resolve an entry path against a base directory (an absolute
/// filesystem path) into the run's entry specifier.
pub fn resolve_entry(entry_path: &Vec<u8>, base_dir: &Vec<u8>) -> (r: Result<
    ModuleSpecifier,
    LoadError,
>)
    ensures
        match r {
            Ok(m) => base_dir@.len() >= 1 && base_dir@[0] == 47 && resolve_seq(
                entry_raw_seq(entry_path@),
                entry_referrer_seq(base_dir@),
            ) == Some(m@) && m.wf(),
            Err(e) => e == LoadError::Resolution && (base_dir@.len() == 0 || base_dir@[0] != 47
                || resolve_seq(entry_raw_seq(entry_path@), entry_referrer_seq(base_dir@)) is None),
        },
{
    if base_dir.len() == 0 || base_dir[0] != 47 {
        return Err(LoadError::Resolution);
    }
    let mut rv: Vec<u8> = Vec::new();
    rv.push(102);
    rv.push(105);
    rv.push(108);
    rv.push(101);
    rv.push(58);
    rv.push(47);
    rv.push(47);
    proof {
        assert(rv@ =~= seq![102u8, 105u8, 108u8, 101u8, 58u8, 47u8, 47u8]);
    }
    let mut rv = append_from(rv, base_dir, 0);
    rv.push(47);
    proof {
        assert(base_dir@.skip(0) =~= base_dir@);
        assert(rv@ =~= entry_referrer_seq(base_dir@));
        assert(rv@[4] == 58 && rv@[0] == 102 && rv@[1] == 105 && rv@[2] == 108 && rv@[3] == 101);
        assert(scheme_end_at(rv@, 4));
    }
    let referrer = ModuleSpecifier::from_absolute(rv);
    let absolute = match find_scheme_end(entry_path) {
        Some(_) => true,
        None => false,
    };
    let n = entry_path.len();
    let starts_slash = n >= 1 && entry_path[0] == 47;
    let dot = n >= 2 && entry_path[0] == 46 && entry_path[1] == 47;
    let dotdot = n >= 3 && entry_path[0] == 46 && entry_path[1] == 46 && entry_path[2] == 47;
    let raw: Vec<u8>;
    if !absolute && !starts_slash && !dot && !dotdot {
        let mut prefix: Vec<u8> = Vec::new();
        prefix.push(46);
        prefix.push(47);
        proof {
            assert(prefix@ =~= seq![46u8, 47u8]);
        }
        raw = append_from(prefix, entry_path, 0);
        proof {
            assert(entry_path@.skip(0) =~= entry_path@);
            assert(raw@ == entry_raw_seq(entry_path@));
        }
    } else {
        raw = copy_bytes(entry_path);
    }
    resolve(&raw, &referrer)
}

/// One module of an in-memory origin: its absolute identifier, the raw
/// bytes it serves, the identifier the origin redirects it to (if any),
/// and the raw references its source imports.
pub struct MemoryModule {
    pub specifier: Vec<u8>,
    pub bytes: Vec<u8>,
    pub redirect_to: Option<Vec<u8>>,
    pub imports: Vec<Vec<u8>>,
}

/// An in-memory origin: the pluggable test double standing in for the
/// filesystem or the network, so a whole run can execute without I/O.
pub struct MemoryOrigin {
    pub modules: Vec<MemoryModule>,
}

impl MemoryOrigin {
    /// Find the module serving an identifier.
    pub fn find(&self, key: &Vec<u8>) -> (r: Option<usize>)
        ensures
            match r {
                Some(i) => i < self.modules@.len() && self.modules@[i as int].specifier@ == key@,
                None => forall|i: int|
                    0 <= i < self.modules@.len() ==> (#[trigger] self.modules@[i]).specifier@
                        != key@,
            },
    {
        let mut i: usize = 0;
        while i < self.modules.len()
            invariant
                i <= self.modules@.len(),
                forall|t: int|
                    0 <= t < i ==> (#[trigger] self.modules@[t]).specifier@ != key@,
            decreases self.modules@.len() - i,
        {
            if bytes_eq(&self.modules[i].specifier, key) {
                return Some(i);
            }
            i += 1;
        }
        None
    }

    /// The outcome the origin answers with for its `i`-th module: a
    /// successful response whose final URL reflects any redirect.
    pub fn outcome_at(&self, i: usize) -> (r: FetchOutcome)
        requires
            i < self.modules@.len(),
        ensures
            r matches FetchOutcome::HttpResponse { status, bytes, final_url } && status == 200
                && bytes@ == self.modules@[i as int].bytes@ && final_url@ == (
            match self.modules@[i as int].redirect_to {
                Some(rr) => rr@,
                None => self.modules@[i as int].specifier@,
            }),
    {
        let md = &self.modules[i];
        let bytes = copy_bytes(&md.bytes);
        let final_url = match &md.redirect_to {
            Some(rr) => copy_bytes(rr),
            None => copy_bytes(&md.specifier),
        };
        FetchOutcome::HttpResponse { status: 200, bytes, final_url }
    }
}

/// The origin holds a record serving this identifier.
pub open spec fn origin_has(origin: MemoryOrigin, k: Seq<u8>) -> bool {
    exists|i: int|
        0 <= i < origin.modules@.len() && (#[trigger] origin.modules@[i]).specifier@ == k
}

/// An origin with nothing that can fail: it serves the entry, every
/// import of every record resolves against its record's identifier to
/// something the origin serves, every typed-superset record lowers, and
/// every redirect target is itself absolute. Loading from such an
/// origin can never report an error, only success or an exhausted
/// budget.
pub open spec fn origin_flawless(origin: MemoryOrigin, entry: Seq<u8>) -> bool {
    &&& origin_has(origin, entry)
    &&& forall|i: int, t: int|
        0 <= i < origin.modules@.len() && 0 <= t < origin.modules@[i].imports@.len() ==> {
            let r = resolve_seq(
                (#[trigger] origin.modules@[i].imports@[t])@,
                origin.modules@[i].specifier@,
            );
            r is Some && origin_has(origin, r.unwrap())
        }
    &&& forall|i: int|
        0 <= i < origin.modules@.len() ==> !crate::transpile::lowering_fails(
            (#[trigger] origin.modules@[i]).specifier@,
            origin.modules@[i].bytes@,
        )
    &&& forall|i: int|
        0 <= i < origin.modules@.len() ==> match (#[trigger] origin.modules@[i]).redirect_to {
            Some(rr) => rr@ == origin.modules@[i].specifier@ || is_absolute_seq(rr@),
            None => true,
        }
}

/// The origin's records carry distinct identifiers.
pub open spec fn origin_distinct(origin: MemoryOrigin) -> bool {
    forall|i: int, j: int|
        0 <= i < j < origin.modules@.len() ==> (#[trigger] origin.modules@[i]).specifier@ != (
        #[trigger] origin.modules@[j]).specifier@
}

/// The cached graph is closed: every record the cache serves under the
/// record's own identifier (not merely through a redirect alias) has
/// each of its imports resolved against that identifier and served too.
pub open spec fn graph_closed(origin: MemoryOrigin, loader: SimpleModuleLoader) -> bool {
    forall|i: int, t: int|
        0 <= i < origin.modules@.len() && 0 <= t < origin.modules@[i].imports@.len()
            && loader.has_key(origin.modules@[i].specifier@, ModuleType::Script) && loader.value_of(
            origin.modules@[i].specifier@,
            ModuleType::Script,
        ).specifier@ == origin.modules@[i].specifier@ ==> {
            let r = resolve_seq(
                (#[trigger] origin.modules@[i].imports@[t])@,
                origin.modules@[i].specifier@,
            );
            r is Some && loader.has_key(r.unwrap(), ModuleType::Script)
        }
}

/// The cache serves this record under the record's own identifier, not
/// merely through a redirect alias.
spec fn self_served(origin: MemoryOrigin, loader: SimpleModuleLoader, i: int) -> bool {
    &&& loader.has_key(origin.modules@[i].specifier@, ModuleType::Script)
    &&& loader.value_of(origin.modules@[i].specifier@, ModuleType::Script).specifier@
        == origin.modules@[i].specifier@
}

/// One import of one record is accounted for: resolved, and either
/// already served or still waiting in the worklist.
spec fn import_settled(
    origin: MemoryOrigin,
    loader: SimpleModuleLoader,
    work: Seq<ModuleSpecifier>,
    i: int,
    t: int,
) -> bool {
    let r = resolve_seq(origin.modules@[i].imports@[t]@, origin.modules@[i].specifier@);
    &&& r is Some
    &&& (loader.has_key(r.unwrap(), ModuleType::Script) || exists|u: int|
        0 <= u < work.len() && (#[trigger] work[u])@ == r.unwrap())
}

/// `graph_closed`, up to imports still waiting in the worklist.
spec fn graph_closing(
    origin: MemoryOrigin,
    loader: SimpleModuleLoader,
    work: Seq<ModuleSpecifier>,
) -> bool {
    forall|i: int, t: int|
        0 <= i < origin.modules@.len() && 0 <= t < origin.modules@[i].imports@.len()
            && self_served(origin, loader, i) ==> #[trigger] import_settled(
            origin,
            loader,
            work,
            i,
            t,
        )
}

/// Load every module reachable from `entry` out of the origin, fetching
/// each distinct identifier at most once (the cache answers repeats) and
/// aborting on the first error. An error is reported only when the
/// origin genuinely fails the walk somewhere: a flawless origin yields
/// success or an exhausted budget, never an error. `budget` bounds the
/// number of worklist steps, the explicit iteration bound of the
/// drain-style loops; `None` reports that the budget ran out first, and
/// even then the entry itself was served. On success, a cache that
/// started empty holds a closed graph of a duplicate-free origin.
pub fn load_graph(
    origin: &MemoryOrigin,
    entry: &ModuleSpecifier,
    loader: &mut SimpleModuleLoader,
    budget: usize,
) -> (r: Option<Result<(), LoadError>>)
    requires
        entry.wf(),
        old(loader).wf(),
    ensures
        final(loader).wf(),
        forall|k: Seq<u8>, t: ModuleType|
            old(loader).has_key(k, t) ==> #[trigger] final(loader).has_key(k, t),
        match r {
            Some(Ok(())) => final(loader).has_key(entry@, ModuleType::Script) && ((
            origin_distinct(*origin) && (forall|k: Seq<u8>, t: ModuleType|
                !old(loader).has_key(k, t))) ==> graph_closed(*origin, *final(loader))),
            Some(Err(e)) => !origin_flawless(*origin, entry@),
            None => budget >= 1 ==> final(loader).has_key(entry@, ModuleType::Script),
        },
{
    let ghost clean = origin_distinct(*origin) && (forall|k: Seq<u8>, t: ModuleType|
        !old(loader).has_key(k, t));
    let mut work: Vec<ModuleSpecifier> = Vec::new();
    work.push(ModuleSpecifier::from_absolute(entry.to_bytes()));
    proof {
        assert(work@[0]@ == entry@);
        if clean {
            assert forall|i: int, t: int|
                0 <= i < origin.modules@.len() && 0 <= t < origin.modules@[i].imports@.len()
                    && self_served(*origin, *loader, i) implies #[trigger] import_settled(
                *origin,
                *loader,
                work@,
                i,
                t,
            ) by {
                assert(!loader.has_key(origin.modules@[i].specifier@, ModuleType::Script));
            }
        }
    }
    let mut steps: usize = 0;
    while steps < budget
        invariant
            loader.wf(),
            forall|t: int| 0 <= t < work@.len() ==> (#[trigger] work@[t]).wf(),
            loader.has_key(entry@, ModuleType::Script) || exists|t: int|
                0 <= t < work@.len() && (#[trigger] work@[t])@ == entry@,
            forall|k: Seq<u8>, t: ModuleType|
                old(loader).has_key(k, t) ==> #[trigger] loader.has_key(k, t),
            steps == 0 ==> work@.len() == 1 && work@[0]@ == entry@,
            steps >= 1 ==> loader.has_key(entry@, ModuleType::Script),
            origin_flawless(*origin, entry@) ==> forall|u: int|
                0 <= u < work@.len() ==> origin_has(*origin, (#[trigger] work@[u])@),
            clean == (origin_distinct(*origin) && (forall|k: Seq<u8>, t: ModuleType|
                !old(loader).has_key(k, t))),
            clean ==> graph_closing(*origin, *loader, work@),
        decreases budget - steps,
    {
        steps += 1;
        let ghost work_pre = work@;
        let next = match work.pop() {
            Some(n) => n,
            None => {
                proof {
                    if clean {
                        assert forall|i: int, t: int|
                            0 <= i < origin.modules@.len() && 0 <= t
                                < origin.modules@[i].imports@.len() && loader.has_key(
                                origin.modules@[i].specifier@,
                                ModuleType::Script,
                            ) && loader.value_of(
                                origin.modules@[i].specifier@,
                                ModuleType::Script,
                            ).specifier@ == origin.modules@[i].specifier@ implies ({
                            let r = resolve_seq(
                                (#[trigger] origin.modules@[i].imports@[t])@,
                                origin.modules@[i].specifier@,
                            );
                            r is Some && loader.has_key(r.unwrap(), ModuleType::Script)
                        }) by {
                            assert(import_settled(*origin, *loader, work@, i, t));
                        }
                    }
                }
                return Some(Ok(()));
            },
        };
        proof {
            assert(next == work_pre[work_pre.len() - 1]);
            assert(next.wf());
        }
        match loader.lookup_index(next.as_bytes(), ModuleType::Script) {
            Some(_) => {
                proof {
                    if !loader.has_key(entry@, ModuleType::Script) {
                        let t = choose|t: int|
                            0 <= t < work_pre.len() && (#[trigger] work_pre[t])@ == entry@;
                        assert(t < work_pre.len() - 1);
                        assert(work@[t] == work_pre[t]);
                    }
                    if clean {
                        assert forall|i: int, t2: int|
                            0 <= i < origin.modules@.len() && 0 <= t2
                                < origin.modules@[i].imports@.len() && self_served(
                                *origin,
                                *loader,
                                i,
                            ) implies #[trigger] import_settled(
                            *origin,
                            *loader,
                            work@,
                            i,
                            t2,
                        ) by {
                            assert(import_settled(*origin, *loader, work_pre, i, t2));
                            let r = resolve_seq(
                                origin.modules@[i].imports@[t2]@,
                                origin.modules@[i].specifier@,
                            );
                            if !loader.has_key(r.unwrap(), ModuleType::Script) {
                                let u = choose|u: int|
                                    0 <= u < work_pre.len() && (#[trigger] work_pre[u])@
                                        == r.unwrap();
                                if u == work_pre.len() - 1 {
                                    assert(next@ == r.unwrap());
                                    assert(false);
                                } else {
                                    assert(work@[u] == work_pre[u]);
                                }
                            }
                        }
                    }
                }
            },
            None => {
                let mi = match origin.find(next.as_bytes()) {
                    Some(i) => i,
                    None => {
                        proof {
                            if origin_flawless(*origin, entry@) {
                                assert(origin_has(*origin, next@));
                                let w = choose|i: int|
                                    0 <= i < origin.modules@.len() && (
                                    #[trigger] origin.modules@[i]).specifier@ == next@;
                                assert(origin.modules@[w].specifier@ != next@);
                            }
                        }
                        return Some(Err(LoadError::Io(IoKind::NotFound)));
                    },
                };
                let outcome = origin.outcome_at(mi);
                let ghost outg = outcome;
                let src = match complete_fetch(&next, RequestedKind::Default, outcome) {
                    Ok(s) => s,
                    Err(e) => {
                        proof {
                            if origin_flawless(*origin, entry@) {
                                let mdg = origin.modules@[mi as int];
                                assert(crate::fetch::fetch_failure(
                                    next@,
                                    RequestedKind::Default,
                                    outg,
                                    e,
                                ));
                                assert(!crate::transpile::lowering_fails(mdg.specifier@, mdg.bytes@));
                                match mdg.redirect_to {
                                    Some(rr) => {
                                        assert(rr@ == mdg.specifier@ || is_absolute_seq(rr@));
                                    },
                                    None => {},
                                }
                                assert(false);
                            }
                        }
                        return Some(Err(e));
                    },
                };
                proof {
                    assert(src.specifier@ == next@);
                    assert(src.module_type == ModuleType::Script);
                }
                let ghost loader_pre = *loader;
                let ghost srcg = src;
                loader.store(src);
                proof {
                    if !loader.has_key(entry@, ModuleType::Script) {
                        let t = choose|t: int|
                            0 <= t < work_pre.len() && (#[trigger] work_pre[t])@ == entry@;
                        assert(t < work_pre.len() - 1);
                        assert(work@[t] == work_pre[t]);
                    }
                    if clean {
                        assert forall|i: int, t2: int|
                            0 <= i < origin.modules@.len() && 0 <= t2
                                < origin.modules@[i].imports@.len() && i != mi as int
                                && self_served(*origin, *loader, i) implies (
                        #[trigger] import_settled(*origin, *loader, work@, i, t2)) by {
                            let spec_i = origin.modules@[i].specifier@;
                            assert(spec_i != next@);
                            if loader_pre.has_key(spec_i, ModuleType::Script) {
                                assert(self_served(*origin, loader_pre, i));
                                assert(import_settled(*origin, loader_pre, work_pre, i, t2));
                                let r = resolve_seq(
                                    origin.modules@[i].imports@[t2]@,
                                    spec_i,
                                );
                                if !loader_pre.has_key(r.unwrap(), ModuleType::Script) {
                                    let u = choose|u: int|
                                        0 <= u < work_pre.len() && (#[trigger] work_pre[u])@
                                            == r.unwrap();
                                    if u == work_pre.len() - 1 {
                                        assert(next@ == r.unwrap());
                                        assert(loader.has_key(r.unwrap(), ModuleType::Script));
                                    } else {
                                        assert(work@[u] == work_pre[u]);
                                    }
                                } else {
                                    assert(loader.has_key(r.unwrap(), ModuleType::Script));
                                }
                            } else {
                                assert(loader.value_of(spec_i, ModuleType::Script).specifier@
                                    == next@);
                                assert(false);
                            }
                        }
                    }
                }
                let md = &origin.modules[mi];
                let mut t: usize = 0;
                while t < md.imports.len()
                    invariant
                        loader.wf(),
                        next.wf(),
                        t <= md.imports@.len(),
                        forall|u: int| 0 <= u < work@.len() ==> (#[trigger] work@[u]).wf(),
                        loader.has_key(entry@, ModuleType::Script) || exists|u: int|
                            0 <= u < work@.len() && (#[trigger] work@[u])@ == entry@,
                        forall|k: Seq<u8>, t: ModuleType|
                            old(loader).has_key(k, t) ==> #[trigger] loader.has_key(k, t),
                        steps >= 1 ==> loader.has_key(entry@, ModuleType::Script),
                        mi < origin.modules@.len(),
                        origin.modules@[mi as int].specifier@ == next@,
                        md == &origin.modules@[mi as int],
                        origin_flawless(*origin, entry@) ==> forall|u: int|
                            0 <= u < work@.len() ==> origin_has(*origin, (#[trigger] work@[u])@),
                        clean ==> forall|i: int, t2: int|
                            0 <= i < origin.modules@.len() && 0 <= t2
                                < origin.modules@[i].imports@.len() && i != mi as int
                                && self_served(*origin, *loader, i) ==> #[trigger] import_settled(
                                *origin,
                                *loader,
                                work@,
                                i,
                                t2,
                            ),
                        clean ==> forall|t2: int|
                            0 <= t2 < t ==> #[trigger] import_settled(
                                *origin,
                                *loader,
                                work@,
                                mi as int,
                                t2,
                            ),
                    decreases md.imports@.len() - t,
                {
                    let ghost work_inner = work@;
                    proof {
                        if origin_flawless(*origin, entry@) {
                            assert(origin.modules@[mi as int].imports@[t as int]
                                == md.imports@[t as int]);
                        }
                    }
                    match resolve(&md.imports[t], &next) {
                        Ok(m2) => {
                            work.push(m2);
                            proof {
                                if !loader.has_key(entry@, ModuleType::Script) {
                                    let u = choose|u: int|
                                        0 <= u < work_inner.len() && (#[trigger] work_inner[u])@
                                            == entry@;
                                    assert(work@[u] == work_inner[u]);
                                }
                                if origin_flawless(*origin, entry@) {
                                    assert(resolve_seq(
                                        origin.modules@[mi as int].imports@[t as int]@,
                                        origin.modules@[mi as int].specifier@,
                                    ) == Some(m2@));
                                    assert forall|u: int| 0 <= u < work@.len() implies origin_has(
                                        *origin,
                                        (#[trigger] work@[u])@,
                                    ) by {
                                        if u < work_inner.len() {
                                            assert(work@[u] == work_inner[u]);
                                        }
                                    }
                                }
                                if clean {
                                    assert(resolve_seq(
                                        origin.modules@[mi as int].imports@[t as int]@,
                                        origin.modules@[mi as int].specifier@,
                                    ) == Some(m2@));
                                    assert(work@[work@.len() - 1]@ == m2@);
                                    assert(import_settled(
                                        *origin,
                                        *loader,
                                        work@,
                                        mi as int,
                                        t as int,
                                    ));
                                    assert forall|i: int, t2: int|
                                        0 <= i < origin.modules@.len() && 0 <= t2
                                            < origin.modules@[i].imports@.len() && i != mi as int
                                            && self_served(*origin, *loader, i) implies (
                                    #[trigger] import_settled(
                                        *origin,
                                        *loader,
                                        work@,
                                        i,
                                        t2,
                                    )) by {
                                        assert(import_settled(
                                            *origin,
                                            *loader,
                                            work_inner,
                                            i,
                                            t2,
                                        ));
                                        let r = resolve_seq(
                                            origin.modules@[i].imports@[t2]@,
                                            origin.modules@[i].specifier@,
                                        );
                                        if !loader.has_key(r.unwrap(), ModuleType::Script) {
                                            let u = choose|u: int|
                                                0 <= u < work_inner.len() && (
                                                #[trigger] work_inner[u])@ == r.unwrap();
                                            assert(work@[u] == work_inner[u]);
                                        }
                                    }
                                    assert forall|t2: int| 0 <= t2 < t + 1 implies (
                                    #[trigger] import_settled(
                                        *origin,
                                        *loader,
                                        work@,
                                        mi as int,
                                        t2,
                                    )) by {
                                        if t2 < t {
                                            assert(import_settled(
                                                *origin,
                                                *loader,
                                                work_inner,
                                                mi as int,
                                                t2,
                                            ));
                                            let r = resolve_seq(
                                                origin.modules@[mi as int].imports@[t2]@,
                                                origin.modules@[mi as int].specifier@,
                                            );
                                            if !loader.has_key(r.unwrap(), ModuleType::Script) {
                                                let u = choose|u: int|
                                                    0 <= u < work_inner.len() && (
                                                    #[trigger] work_inner[u])@ == r.unwrap();
                                                assert(work@[u] == work_inner[u]);
                                            }
                                        }
                                    }
                                }
                            }
                        },
                        Err(e) => {
                            proof {
                                if origin_flawless(*origin, entry@) {
                                    assert(resolve_seq(
                                        origin.modules@[mi as int].imports@[t as int]@,
                                        origin.modules@[mi as int].specifier@,
                                    ) is Some);
                                    assert(false);
                                }
                            }
                            return Some(Err(e));
                        },
                    }
                    t += 1;
                }
                proof {
                    if clean {
                        assert forall|i: int, t2: int|
                            0 <= i < origin.modules@.len() && 0 <= t2
                                < origin.modules@[i].imports@.len() && self_served(
                                *origin,
                                *loader,
                                i,
                            ) implies #[trigger] import_settled(
                            *origin,
                            *loader,
                            work@,
                            i,
                            t2,
                        ) by {
                            if i == mi as int {
                                assert(import_settled(*origin, *loader, work@, mi as int, t2));
                            }
                        }
                    }
                }
            },
        }
    }
    None
}

/// Drive one run to its end against an in-memory origin: resolve the
/// entry, load the reachable graph, then account the evaluation and
/// drain outcomes the embedded runtime reported. The first error
/// observed is the one returned.
#[verifier::rlimit(100)]
#[verifier::spinoff_prover]
pub fn run(
    origin: &MemoryOrigin,
    entry_path: &Vec<u8>,
    base_dir: &Vec<u8>,
    budget: usize,
    eval_ok: bool,
    drain_ok: bool,
) -> (r: Result<SimpleModuleLoader, LoadError>)
    ensures
        match r {
            Ok(loader) => {
                &&& loader.wf() && eval_ok && drain_ok
                &&& ({
                    let rr = resolve_seq(entry_raw_seq(entry_path@), entry_referrer_seq(base_dir@));
                    rr is Some && loader.has_key(rr.unwrap(), ModuleType::Script)
                })
                &&& (origin_distinct(*origin) ==> graph_closed(*origin, loader))
            },
            Err(e) => true,
        },
        !(eval_ok && drain_ok) ==> r is Err,
        (base_dir@.len() == 0 || base_dir@[0] != 47 || resolve_seq(
            entry_raw_seq(entry_path@),
            entry_referrer_seq(base_dir@),
        ) is None) ==> r == Err::<SimpleModuleLoader, LoadError>(LoadError::Resolution),
        r matches Err(e) ==> {
            ||| e == LoadError::Evaluation
            ||| ((base_dir@.len() == 0 || base_dir@[0] != 47 || resolve_seq(
                entry_raw_seq(entry_path@),
                entry_referrer_seq(base_dir@),
            ) is None) && e == LoadError::Resolution)
            ||| (resolve_seq(entry_raw_seq(entry_path@), entry_referrer_seq(base_dir@)) matches Some(
                m,
            ) && !origin_flawless(*origin, m))
        },
{
    let mut machine = RunMachine::new();
    let entry = match resolve_entry(entry_path, base_dir) {
        Ok(m) => {
            machine.advance(RunEvent::EntryResolutionSucceeded);
            m
        },
        Err(e) => {
            machine.advance(RunEvent::EntryResolutionFailed(e));
            return Err(e);
        },
    };
    machine.advance(RunEvent::LoadingStarted);
    let mut loader = SimpleModuleLoader::new();
    let ghost loader0 = loader;
    match load_graph(origin, &entry, &mut loader, budget) {
        Some(Ok(())) => {
            proof {
                assert(forall|k: Seq<u8>, t: crate::errors::ModuleType|
                    !loader0.has_key(k, t));
                if origin_distinct(*origin) {
                    assert(graph_closed(*origin, loader));
                }
            }
            machine.advance(RunEvent::GraphLoaded);
        },
        Some(Err(e)) => {
            machine.advance(RunEvent::GraphLoadFailed(e));
            return Err(e);
        },
        None => {
            machine.advance(RunEvent::GraphLoadFailed(LoadError::Evaluation));
            return Err(LoadError::Evaluation);
        },
    }
    if eval_ok {
        machine.advance(RunEvent::EvaluationSucceeded);
    } else {
        machine.advance(RunEvent::EvaluationFailed);
        return Err(LoadError::Evaluation);
    }
    if drain_ok {
        machine.advance(RunEvent::DrainQuiescent);
    } else {
        machine.advance(RunEvent::DrainFailed);
        return Err(LoadError::Evaluation);
    }
    proof {
        assert(resolve_seq(entry_raw_seq(entry_path@), entry_referrer_seq(base_dir@)) == Some(
            entry@,
        ));
        assert(loader.has_key(entry@, ModuleType::Script));
    }
    Ok(loader)
}

} // verus!
