use vstd::prelude::*;
use crate::errors::{LoadError, ModuleType, RequestedKind};
use crate::fetch::{
    bytes_eq, complete_fetch, completed_source, fetch_failure, module_type_for, module_type_spec,
    FetchOutcome, ModuleSource,
};
use crate::specifier::ModuleSpecifier;

verus! {

/// One cache entry: a specifier's bytes, the kind it was requested as,
/// and the index of its source.
#[derive(Debug)]
struct CacheKey {
    key: Vec<u8>,
    kind: ModuleType,
    index: usize,
}

/// The per-run module cache, keyed by specifier and requested kind:
/// each distinct pair is written exactly once (first fetch wins) and
/// read thereafter, and a redirected source stays retrievable under
/// both the requested and the final identifier.
#[derive(Debug)]
pub struct SimpleModuleLoader {
    sources: Vec<ModuleSource>,
    keys: Vec<CacheKey>,
}

impl SimpleModuleLoader {
    /// The number of distinct sources fetched so far.
    pub closed spec fn source_count(&self) -> nat {
        self.sources@.len()
    }

    /// The source stored at an index.
    pub closed spec fn source_at(&self, i: int) -> ModuleSource {
        self.sources@[i]
    }

    /// Some source answers to this identifier under this kind.
    pub closed spec fn has_key(&self, k: Seq<u8>, t: ModuleType) -> bool {
        exists|j: int|
            0 <= j < self.keys@.len() && self.keys@[j].key@ == k && self.keys@[j].kind == t
    }

    /// The source that answers to this identifier under this kind.
    pub closed spec fn value_of(&self, k: Seq<u8>, t: ModuleType) -> ModuleSource {
        let j = choose|j: int|
            0 <= j < self.keys@.len() && self.keys@[j].key@ == k && self.keys@[j].kind == t;
        self.sources@[self.keys@[j].index as int]
    }

    /// Key pairs are distinct and each points at a stored source.
    pub closed spec fn wf(&self) -> bool {
        &&& forall|j: int|
            0 <= j < self.keys@.len() ==> (#[trigger] self.keys@[j]).index < self.sources@.len()
        &&& forall|i: int, j: int|
            0 <= i < j < self.keys@.len() ==> !((#[trigger] self.keys@[i]).key@ == (
            #[trigger] self.keys@[j]).key@ && self.keys@[i].kind == self.keys@[j].kind)
        &&& forall|i: int| 0 <= i < self.sources@.len() ==> (#[trigger] self.sources@[i]).wf()
    }

    /// An empty cache, fresh for one run.
    pub fn new() -> (r: SimpleModuleLoader)
        ensures
            r.wf(),
            r.source_count() == 0,
            forall|k: Seq<u8>, t: ModuleType| !r.has_key(k, t),
    {
        SimpleModuleLoader { sources: Vec::new(), keys: Vec::new() }
    }

    pub fn len(&self) -> (r: usize)
        ensures
            r == self.source_count(),
    {
        self.sources.len()
    }

    /// Look an identifier up under a kind, without fetching.
    pub fn lookup_index(&self, key: &Vec<u8>, kind: ModuleType) -> (r: Option<usize>)
        requires
            self.wf(),
        ensures
            match r {
                Some(i) => self.has_key(key@, kind) && i < self.source_count() && self.source_at(
                    i as int,
                ) == self.value_of(key@, kind),
                None => !self.has_key(key@, kind),
            },
    {
        let mut j: usize = 0;
        while j < self.keys.len()
            invariant
                self.wf(),
                j <= self.keys@.len(),
                forall|t: int|
                    0 <= t < j ==> !((#[trigger] self.keys@[t]).key@ == key@ && self.keys@[t].kind
                        == kind),
            decreases self.keys@.len() - j,
        {
            let entry = &self.keys[j];
            if entry.kind == kind && bytes_eq(&entry.key, key) {
                proof {
                    assert(self.has_key(key@, kind));
                    let jc = choose|t: int|
                        0 <= t < self.keys@.len() && self.keys@[t].key@ == key@
                            && self.keys@[t].kind == kind;
                    if jc != j as int {
                        assert(!(self.keys@[jc].key@ == self.keys@[j as int].key@
                            && self.keys@[jc].kind == self.keys@[j as int].kind));
                    }
                }
                return Some(entry.index);
            }
            j += 1;
        }
        None
    }

    /// A borrowed view of a stored source.
    pub fn source(&self, i: usize) -> (r: &ModuleSource)
        requires
            self.wf(),
            i < self.source_count(),
        ensures
            *r == self.source_at(i as int),
            r.wf(),
    {
        &self.sources[i]
    }

    /// Record a freshly fetched source under its requested identifier
    /// and kind, and, after a redirect, under its final identifier too.
    /// Every pair already cached keeps the source it had: the first
    /// fetch wins.
    pub fn store(&mut self, src: ModuleSource)
        requires
            old(self).wf(),
            src.wf(),
            !old(self).has_key(src.specifier@, src.module_type),
        ensures
            final(self).wf(),
            final(self).source_count() == old(self).source_count() + 1,
            final(self).source_at(old(self).source_count() as int) == src,
            final(self).has_key(src.specifier@, src.module_type),
            final(self).value_of(src.specifier@, src.module_type) == src,
            (match src.resolved_specifier {
                Some(rs) => final(self).has_key(rs@, src.module_type) && (!old(self).has_key(
                    rs@,
                    src.module_type,
                ) ==> final(self).value_of(rs@, src.module_type) == src),
                None => true,
            }),
            forall|k: Seq<u8>, t: ModuleType|
                old(self).has_key(k, t) ==> #[trigger] final(self).has_key(k, t) && final(self).value_of(k, t) == old(self).value_of(k, t),
            forall|k: Seq<u8>, t: ModuleType|
                #[trigger] final(self).has_key(k, t) ==> old(self).has_key(k, t) || (t
                    == src.module_type && (k == src.specifier@ || (
                src.resolved_specifier matches Some(rs) && k == rs@))),
    {
        let ghost srcg = src;
        let kind = src.module_type;
        let key = src.specifier.to_bytes();
        let alias: Option<Vec<u8>> = match &src.resolved_specifier {
            Some(rs) => {
                let ab = rs.to_bytes();
                match self.lookup_index(&ab, kind) {
                    Some(_) => None,
                    None => Some(ab),
                }
            },
            None => None,
        };
        let idx = self.sources.len();
        self.sources.push(src);
        self.keys.push(CacheKey { key, kind, index: idx });
        match alias {
            Some(ak) => {
                self.keys.push(CacheKey { key: ak, kind, index: idx });
            },
            None => {},
        }
        proof {
            let ks0 = old(self).keys@;
            let ss0 = old(self).sources@;
            let ks1 = self.keys@;
            let ss1 = self.sources@;
            assert forall|a: int, b: int| 0 <= a < b < ks1.len() implies !((
            #[trigger] ks1[a]).key@ == (#[trigger] ks1[b]).key@ && ks1[a].kind == ks1[b].kind) by {
                if b < ks0.len() {
                    assert(ks1[a] == ks0[a] && ks1[b] == ks0[b]);
                } else if a < ks0.len() {
                    assert(ks1[a] == ks0[a]);
                    assert(!old(self).has_key(ks1[b].key@, ks1[b].kind));
                } else {
                }
            }
            assert forall|k: Seq<u8>, t: ModuleType| old(self).has_key(k, t) implies #[trigger] self
                .has_key(k, t) && self.value_of(k, t) == old(self).value_of(k, t) by {
                let j0 = choose|u: int|
                    0 <= u < ks0.len() && ks0[u].key@ == k && ks0[u].kind == t;
                assert(ks1[j0] == ks0[j0]);
                assert(self.has_key(k, t));
                let j1 = choose|u: int|
                    0 <= u < ks1.len() && ks1[u].key@ == k && ks1[u].kind == t;
                if j1 != j0 {
                    assert(!(ks1[j1].key@ == ks1[j0].key@ && ks1[j1].kind == ks1[j0].kind) || !(
                    ks1[j0].key@ == ks1[j1].key@ && ks1[j0].kind == ks1[j1].kind));
                }
                assert(ss1[ks1[j1].index as int] == ss0[ks0[j0].index as int]);
            }
            assert(ks1[ks0.len() as int].key@ == srcg.specifier@ && ks1[ks0.len() as int].kind
                == srcg.module_type);
            assert(self.has_key(srcg.specifier@, srcg.module_type));
            let jn = choose|u: int|
                0 <= u < ks1.len() && ks1[u].key@ == srcg.specifier@ && ks1[u].kind
                    == srcg.module_type;
            if jn != ks0.len() as int {
                assert(!(ks1[jn].key@ == ks1[ks0.len() as int].key@ && ks1[jn].kind
                    == ks1[ks0.len() as int].kind) || !(ks1[ks0.len() as int].key@ == ks1[jn].key@
                    && ks1[ks0.len() as int].kind == ks1[jn].kind));
            }
            assert(self.value_of(srcg.specifier@, srcg.module_type) == srcg);
            match srcg.resolved_specifier {
                Some(rs) => {
                    if !old(self).has_key(rs@, srcg.module_type) {
                        assert(ks1[ks0.len() as int + 1].key@ == rs@ && ks1[ks0.len() as int
                            + 1].kind == srcg.module_type);
                        assert(self.has_key(rs@, srcg.module_type));
                        let ja = choose|u: int|
                            0 <= u < ks1.len() && ks1[u].key@ == rs@ && ks1[u].kind
                                == srcg.module_type;
                        if ja != ks0.len() as int + 1 {
                            assert(!(ks1[ja].key@ == ks1[ks0.len() as int + 1].key@ && ks1[ja].kind
                                == ks1[ks0.len() as int + 1].kind) || !(ks1[ks0.len() as int
                                + 1].key@ == ks1[ja].key@ && ks1[ks0.len() as int + 1].kind
                                == ks1[ja].kind));
                        }
                        assert(self.value_of(rs@, srcg.module_type) == srcg);
                    }
                },
                None => {},
            }
            assert forall|k: Seq<u8>, t: ModuleType| #[trigger] self.has_key(k, t) implies old(self).has_key(k, t) || (t == srcg.module_type && (k == srcg.specifier@ || (
            srcg.resolved_specifier matches Some(rs) && k == rs@))) by {
                let jx = choose|u: int|
                    0 <= u < ks1.len() && ks1[u].key@ == k && ks1[u].kind == t;
                if jx < ks0.len() {
                    assert(ks0[jx].key@ == k && ks0[jx].kind == t);
                }
            }
        }
    }

    /// Serve one module reference, as one load step of a run. An
    /// unsupported explicit kind is refused before the cache is even
    /// consulted: the cache never stands in for the kind check. A pair
    /// already cached is answered from the cache, with nothing fetched
    /// and nothing changed; otherwise the host's fetch outcome becomes
    /// the pair's cached source. Either way the index of the serving
    /// source is returned.
    #[verifier::rlimit(50)]
    pub fn load(
        &mut self,
        specifier: &ModuleSpecifier,
        requested: RequestedKind,
        outcome: FetchOutcome,
    ) -> (r: Result<usize, LoadError>)
        requires
            old(self).wf(),
            specifier.wf(),
        ensures
            final(self).wf(),
            forall|k: Seq<u8>, t: ModuleType|
                old(self).has_key(k, t) ==> #[trigger] final(self).has_key(k, t),
            forall|k: Seq<u8>, t: ModuleType|
                old(self).has_key(k, t) ==> #[trigger] final(self).value_of(k, t) == old(self).value_of(k, t),
            match r {
                Ok(i) => module_type_spec(requested) matches Some(t) && {
                    &&& i < final(self).source_count()
                    &&& final(self).has_key(specifier@, t)
                    &&& final(self).source_at(i as int) == final(self).value_of(specifier@, t)
                    &&& (old(self).has_key(specifier@, t) ==> *final(self) == *old(self))
                    &&& (!old(self).has_key(specifier@, t) ==> {
                        &&& final(self).source_count() == old(self).source_count() + 1
                        &&& completed_source(
                            specifier@,
                            requested,
                            outcome,
                            final(self).value_of(specifier@, t),
                        )
                        &&& (final(self).value_of(specifier@, t).resolved_specifier matches Some(
                            rs,
                        ) ==> final(self).has_key(rs@, t))
                    })
                },
                Err(e) => {
                    &&& *final(self) == *old(self)
                    &&& (module_type_spec(requested) is None ==> e
                        == LoadError::UnsupportedModuleType)
                    &&& (module_type_spec(requested) matches Some(t) ==> !old(self).has_key(
                        specifier@,
                        t,
                    ) && fetch_failure(specifier@, requested, outcome, e))
                },
            },
    {
        let kind = match module_type_for(requested) {
            Ok(t) => t,
            Err(e) => {
                return Err(e);
            },
        };
        match self.lookup_index(specifier.as_bytes(), kind) {
            Some(i) => Ok(i),
            None => match complete_fetch(specifier, requested, outcome) {
                Ok(src) => {
                    let i = self.len();
                    self.store(src);
                    proof {
                        assert forall|k: Seq<u8>, t: ModuleType| old(self).has_key(k, t) implies (
                        #[trigger] self.value_of(k, t)) == old(self).value_of(k, t) by {
                            assert(self.has_key(k, t));
                        }
                    }
                    Ok(i)
                },
                Err(e) => Err(e),
            },
        }
    }
}

} // verus!
