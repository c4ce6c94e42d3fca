//! A bounded cache of loaded resources, keyed by path.  Resources are a
//! closed set of tagged variants; the cache evicts its least recently
//! inserted entry when full.

use vstd::prelude::*;

verus! {

/// Kind of a resource.
#[derive(Debug, Clone, Copy, PartialEq, Eq, Structural, Hash)]
pub enum ResourceType {
    Texture,
    Audio,
    Font,
    Shader,
    Model,
    Text,
    Json,
    Binary,
}

/// Description of a loaded resource.
#[derive(Debug, Clone)]
pub struct ResourceInfo {
    pub path: String,
    pub size: u64,
    /// Seconds since the epoch.
    pub last_modified: u64,
    pub resource_type: ResourceType,
}

/// What can go wrong while loading or caching a resource.
#[derive(Debug, Clone)]
pub enum ResourceError {
    NotFound(String),
    Io(String),
    Decode(String),
    InvalidFormat(String),
    AlreadyLoaded(String),
}

/// A loaded resource: one of the closed set of payload kinds.
#[derive(Debug, Clone)]
pub enum ResourceData {
    Bytes(Vec<u8>),
    Text(String),
}

/// Size in bytes of a payload.
pub open spec fn data_size_spec(d: ResourceData) -> int {
    match d {
        ResourceData::Bytes(b) => b@.len() as int,
        ResourceData::Text(s) => vstd::utf8::encode_utf8(s@).len() as int,
    }
}

struct CacheEntry {
    path: String,
    resource: ResourceData,
    info: ResourceInfo,
    last_accessed: u64,
    size: usize,
}

/// A bounded cache of loaded resources, keyed by path.
pub struct ResourceCache {
    entries: Vec<CacheEntry>,
    max_size: usize,
    current_size: usize,
    tick: u64,
}

/// Totals of a cache.
#[derive(Debug, Clone, Copy, PartialEq, Eq, Structural)]
pub struct CacheStats {
    pub total_resources: usize,
    pub total_size: usize,
    pub max_size: usize,
}

impl ResourceCache {
    /// The cached paths, in entry order.
    pub closed spec fn spec_paths(&self) -> Seq<Seq<char>> {
        Seq::new(
            self.entries@.len(),
            |i: int|
                if 0 <= i < self.entries@.len() {
                    self.entries@[i].path@
                } else {
                    Seq::empty()
                },
        )
    }

    /// Whether a path is cached.
    pub open spec fn spec_contains(&self, path: Seq<char>) -> bool {
        self.spec_paths().contains(path)
    }

    /// First entry position of a path.
    pub closed spec fn spec_pos(&self, path: Seq<char>) -> Option<int> {
        if exists|j: int| 0 <= j < self.entries@.len() && (#[trigger] self.entries@[j].path@)
            == path {
            Some(
                choose|j: int|
                    0 <= j < self.entries@.len() && (#[trigger] self.entries@[j].path@) == path
                        && forall|k: int|
                        0 <= k < j ==> (#[trigger] self.entries@[k].path@) != path,
            )
        } else {
            None
        }
    }

    /// The cached payload of a path: the first entry's.
    pub closed spec fn spec_resource(&self, path: Seq<char>) -> Option<ResourceData> {
        match self.spec_pos(path) {
            Some(j) => Some(self.entries@[j].resource),
            None => None,
        }
    }

    /// The configured size bound.
    pub closed spec fn spec_max_size(&self) -> int {
        self.max_size as int
    }

    /// The accounted total size.
    pub closed spec fn spec_current_size(&self) -> int {
        self.current_size as int
    }

    /// How many entries are cached.
    pub closed spec fn spec_len(&self) -> int {
        self.entries@.len() as int
    }

    /// The next insertion tick.
    pub closed spec fn spec_tick(&self) -> u64 {
        self.tick
    }

    /// The entries, in order: path, payload, recorded size, and the
    /// insertion tick that eviction goes by.
    pub closed spec fn spec_view(&self) -> Seq<(Seq<char>, ResourceData, usize, u64)> {
        Seq::new(
            self.entries@.len(),
            |i: int|
                if 0 <= i < self.entries@.len() {
                    (
                        self.entries@[i].path@,
                        self.entries@[i].resource,
                        self.entries@[i].size,
                        self.entries@[i].last_accessed,
                    )
                } else {
                    vstd::pervasive::arbitrary()
                },
        )
    }

    /// What every cache built through this interface satisfies: no path
    /// twice, and each entry's recorded size is its payload's size.
    pub open spec fn cache_wf(&self) -> bool {
        &&& forall|i: int, j: int|
            0 <= i < j < self.spec_view().len() ==> (#[trigger] self.spec_view()[i].0) != (
            #[trigger] self.spec_view()[j].0)
        &&& forall|i: int|
            0 <= i < self.spec_view().len() ==> (#[trigger] self.spec_view()[i].2) as int
                == data_size_spec(self.spec_view()[i].1)
    }

    /// An empty cache bounded by `max_size` bytes.
    pub fn new(max_size: usize) -> (c: ResourceCache)
        ensures
            c.spec_len() == 0,
            c.spec_max_size() == max_size as int,
            c.spec_current_size() == 0,
            forall|p: Seq<char>| !c.spec_contains(p),
            c.cache_wf(),
    {
        let c = ResourceCache { entries: Vec::new(), max_size, current_size: 0, tick: 0 };
        proof {
            assert forall|p: Seq<char>| !c.spec_contains(p) by {
                assert(c.spec_paths().len() == 0);
            }
        }
        c
    }

    /// Position of a path.
    fn find(&self, path: &str) -> (r: Option<usize>)
        ensures
            (match r {
                Some(p) => {
                    &&& p < self.entries@.len()
                    &&& self.entries@[p as int].path@ == path@
                    &&& forall|k: int|
                        0 <= k < p ==> (#[trigger] self.entries@[k].path@) != path@
                    &&& self.spec_pos(path@) == Some(p as int)
                },
                None => !self.spec_contains(path@) && self.spec_pos(path@) is None,
            }),
    {
        let key = String::from_str(path);
        let mut i: usize = 0;
        while i < self.entries.len()
            invariant
                i <= self.entries@.len(),
                key@ == path@,
                forall|j: int| 0 <= j < i ==> (#[trigger] self.entries@[j].path@) != path@,
            decreases self.entries@.len() - i,
        {
            if self.entries[i].path.eq(&key) {
                return Some(i);
            }
            i = i + 1;
        }
        proof {
            assert forall|j: int|
                0 <= j < self.spec_paths().len() implies (#[trigger] self.spec_paths()[j])
                != path@ by {
                assert(self.spec_paths()[j] == self.entries@[j].path@);
            }
        }
        None
    }

    /// The cached payload for a path, if any: the first entry's.
    pub fn get(&self, path: &str) -> (r: Option<&ResourceData>)
        ensures
            r is Some <==> self.spec_contains(path@),
            (match r {
                Some(d) => self.spec_resource(path@) == Some(*d),
                None => self.spec_resource(path@) is None,
            }),
    {
        match self.find(path) {
            Some(p) => {
                proof {
                    assert(self.spec_paths()[p as int] == path@);
                }
                Some(&self.entries[p].resource)
            },
            None => None,
        }
    }

    /// Whether a path is cached.
    pub fn contains(&self, path: &str) -> (r: bool)
        ensures
            r == self.spec_contains(path@),
    {
        match self.find(path) {
            Some(p) => {
                proof {
                    assert(self.spec_paths()[p as int] == path@);
                }
                true
            },
            None => false,
        }
    }

    /// The description of a cached resource, if any.
    pub fn info(&self, path: &str) -> (r: Option<ResourceInfo>)
        ensures
            r is Some <==> self.spec_contains(path@),
    {
        match self.find(path) {
            Some(p) => {
                proof {
                    assert(self.spec_paths()[p as int] == path@);
                }
                let info = &self.entries[p].info;
                Some(
                    ResourceInfo {
                        path: info.path.clone(),
                        size: info.size,
                        last_modified: info.last_modified,
                        resource_type: info.resource_type,
                    },
                )
            },
            None => None,
        }
    }

    /// Evicts the least recently inserted entry, if any.
    /// Evicts the entry with the least insertion tick, if any.
    fn evict_oldest(&mut self) -> (k: Ghost<int>)
        ensures
            final(self).spec_max_size() == old(self).spec_max_size(),
            final(self).spec_tick() == old(self).spec_tick(),
            old(self).spec_len() == 0 ==> *final(self) == *old(self),
            old(self).spec_len() > 0 ==> ({
                &&& 0 <= k@ < old(self).spec_len()
                &&& (forall|j: int|
                    0 <= j < old(self).spec_len() ==> (#[trigger] old(self).spec_view()[j].3)
                        >= old(self).spec_view()[k@].3)
                &&& (forall|j: int|
                    0 <= j < k@ ==> (#[trigger] old(self).spec_view()[j].3) > old(
                        self,
                    ).spec_view()[k@].3)
                &&& final(self).spec_view() == old(self).spec_view().remove(k@)
                &&& final(self).spec_current_size() == (if old(self).spec_view()[k@].2 as int
                    <= old(self).spec_current_size() {
                    old(self).spec_current_size() - old(self).spec_view()[k@].2
                } else {
                    0
                })
            }),
    {
        if self.entries.len() == 0 {
            return Ghost(-1);
        }
        let mut oldest: usize = 0;
        let mut i: usize = 1;
        while i < self.entries.len()
            invariant
                oldest < i || (i == 1 && oldest == 0),
                oldest < self.entries@.len(),
                i <= self.entries@.len(),
                forall|j: int|
                    0 <= j < i ==> (#[trigger] self.entries@[j].last_accessed) >= self.entries@[
                    oldest as int].last_accessed,
                forall|j: int|
                    0 <= j < oldest ==> (#[trigger] self.entries@[j].last_accessed)
                        > self.entries@[oldest as int].last_accessed,
            decreases self.entries@.len() - i,
        {
            if self.entries[i].last_accessed < self.entries[oldest].last_accessed {
                oldest = i;
            }
            i = i + 1;
        }
        let ghost oldv = self.spec_view();
        let removed = self.entries.remove(oldest);
        if removed.size <= self.current_size {
            self.current_size = self.current_size - removed.size;
        } else {
            self.current_size = 0;
        }
        proof {
            oldv.remove_ensures(oldest as int);
            assert(final(self).spec_view() =~= oldv.remove(oldest as int));
            assert(forall|j: int|
                0 <= j < oldv.len() ==> (#[trigger] oldv[j].3) >= oldv[oldest as int].3);
            assert(forall|j: int|
                0 <= j < oldest ==> (#[trigger] oldv[j].3) > oldv[oldest as int].3);
            assert(old(self).spec_view() == oldv);
        }
        Ghost(oldest as int)
    }

    /// Caches a payload under a path: a path cached twice is refused and
    /// nothing changes; otherwise the payload is appended (the recorded
    /// size is its byte size), evicting first the entry with the least
    /// insertion tick when the accounted size would pass the bound.
    pub fn insert(&mut self, path: String, resource: ResourceData, info: ResourceInfo) -> (r:
        Result<(), ResourceError>)
        ensures
            r is Err <==> old(self).spec_contains(path@),
            r is Err ==> *final(self) == *old(self),
            (match r {
                Err(e) => e matches ResourceError::AlreadyLoaded(_),
                Ok(_) => true,
            }),
            final(self).spec_max_size() == old(self).spec_max_size(),
            r is Ok ==> final(self).spec_contains(path@),
            r is Ok ==> ({
                let dsize = data_size_spec(resource);
                let evict = old(self).spec_current_size() + dsize > old(self).spec_max_size()
                    && old(self).spec_len() > 0;
                if !evict {
                    &&& final(self).spec_view() == old(self).spec_view().push(
                        (path@, resource, dsize as usize, old(self).spec_tick()),
                    )
                    &&& final(self).spec_current_size() == (if old(self).spec_current_size()
                        + dsize <= usize::MAX {
                        old(self).spec_current_size() + dsize
                    } else {
                        usize::MAX as int
                    })
                } else {
                    exists|k: int|
                        #![trigger old(self).spec_view()[k]]
                        {
                            &&& 0 <= k < old(self).spec_len()
                            &&& (forall|j: int|
                                0 <= j < old(self).spec_len() ==> (#[trigger] old(
                                    self,
                                ).spec_view()[j].3) >= old(self).spec_view()[k].3)
                            &&& final(self).spec_view() == old(self).spec_view().remove(k).push(
                                (path@, resource, dsize as usize, old(self).spec_tick()),
                            )
                            &&& ({
                                let mid = if old(self).spec_view()[k].2 as int <= old(
                                    self,
                                ).spec_current_size() {
                                    old(self).spec_current_size() - old(self).spec_view()[k].2
                                } else {
                                    0
                                };
                                final(self).spec_current_size() == (if mid + dsize <= usize::MAX {
                                    mid + dsize
                                } else {
                                    usize::MAX as int
                                })
                            })
                        }
                }
            }),
            old(self).cache_wf() && r is Ok ==> final(self).cache_wf(),
    {
        let size = match &resource {
            ResourceData::Bytes(b) => b.len(),
            ResourceData::Text(s) => {
                let v = s.as_str().as_bytes_vec();
                v.len()
            },
        };
        match self.find(path.as_str()) {
            Some(p) => {
                proof {
                    assert(self.spec_paths()[p as int] == path@);
                }
                return Err(ResourceError::AlreadyLoaded(path));
            },
            None => {},
        }
        proof {
            assert(forall|j: int|
                0 <= j < old(self).spec_view().len() ==> (#[trigger] old(self).spec_view()[j].0)
                    != path@) by {
                assert(forall|j: int|
                    0 <= j < old(self).spec_paths().len() ==> (#[trigger] old(
                        self,
                    ).spec_paths()[j]) != path@);
                assert(forall|j: int|
                    0 <= j < old(self).spec_view().len() ==> (#[trigger] old(
                        self,
                    ).spec_view()[j].0) == old(self).spec_paths()[j]);
            }
        }
        let ghost v0 = self.spec_view();
        let evicted = self.current_size > usize::MAX - size || self.current_size + size
            > self.max_size;
        let mut kk: Ghost<int> = Ghost(-1);
        if evicted {
            kk = self.evict_oldest();
        }
        let ghost v1 = self.spec_view();
        proof {
            if evicted && v0.len() > 0 {
                v0.remove_ensures(kk@);
            }
        }
        let tick = self.tick;
        if self.tick < u64::MAX {
            self.tick = self.tick + 1;
        }
        let entry = CacheEntry { path, resource, info, last_accessed: tick, size };
        let ghost n = self.entries@.len();
        self.entries.push(entry);
        if self.current_size <= usize::MAX - size {
            self.current_size = self.current_size + size;
        } else {
            self.current_size = usize::MAX;
        }
        proof {
            let newt = final(self).spec_view()[n as int];
            assert(final(self).spec_paths()[n as int] == final(self).entries@[n as int].path@);
            assert(final(self).spec_contains(final(self).entries@[n as int].path@));
            assert(final(self).spec_view() =~= v1.push(newt));
            assert(newt.0 == path@);
            assert(newt.2 as int == data_size_spec(resource));
            assert(forall|i: int| 0 <= i < v1.len() ==> (#[trigger] v1[i].0) != path@);
            if evicted && v0.len() > 0 {
                assert(old(self).spec_view()[kk@] == v0[kk@]);
            }
            if old(self).cache_wf() {
                let fv = final(self).spec_view();
                assert forall|i: int, j: int|
                    0 <= i < j < fv.len() implies (#[trigger] fv[i].0) != (#[trigger] fv[j].0) by {
                    if j < n {
                        assert(fv[i] == v1[i]);
                        assert(fv[j] == v1[j]);
                        if evicted && v0.len() > 0 {
                            assert(v1[i] == (if i < kk@ {
                                v0[i]
                            } else {
                                v0[i + 1]
                            }));
                            assert(v1[j] == (if j < kk@ {
                                v0[j]
                            } else {
                                v0[j + 1]
                            }));
                        } else {
                            assert(v1[i] == v0[i]);
                            assert(v1[j] == v0[j]);
                        }
                    } else {
                        assert(fv[i] == v1[i]);
                        assert(fv[j] == newt);
                    }
                }
                assert forall|i: int|
                    0 <= i < fv.len() implies (#[trigger] fv[i].2) as int == data_size_spec(
                    fv[i].1) by {
                    if i < n {
                        assert(fv[i] == v1[i]);
                        if evicted && v0.len() > 0 {
                            assert(v1[i] == (if i < kk@ {
                                v0[i]
                            } else {
                                v0[i + 1]
                            }));
                        } else {
                            assert(v1[i] == v0[i]);
                        }
                    }
                }
            }
        }
        Ok(())
    }

    /// Removes a cached payload, handing back exactly what was stored;
    /// everything else stays.
    pub fn remove(&mut self, path: &str) -> (r: Option<ResourceData>)
        ensures
            r is Some <==> old(self).spec_contains(path@),
            r is None ==> *final(self) == *old(self),
            final(self).spec_max_size() == old(self).spec_max_size(),
            (match (r, old(self).spec_pos(path@)) {
                (Some(d), Some(k)) => {
                    &&& d == old(self).spec_view()[k].1
                    &&& final(self).spec_view() == old(self).spec_view().remove(k)
                    &&& final(self).spec_current_size() == (if old(self).spec_view()[k].2 as int
                        <= old(self).spec_current_size() {
                        old(self).spec_current_size() - old(self).spec_view()[k].2
                    } else {
                        0
                    })
                    &&& (old(self).cache_wf() ==> !final(self).spec_contains(path@))
                },
                (None, None) => true,
                _ => false,
            }),
            old(self).cache_wf() ==> final(self).cache_wf(),
    {
        match self.find(path) {
            Some(p) => {
                proof {
                    assert(self.spec_paths()[p as int] == path@);
                }
                let ghost v0 = self.spec_view();
                let entry = self.entries.remove(p);
                if entry.size <= self.current_size {
                    self.current_size = self.current_size - entry.size;
                } else {
                    self.current_size = 0;
                }
                proof {
                    v0.remove_ensures(p as int);
                    let fv = final(self).spec_view();
                    assert(fv =~= v0.remove(p as int));
                    assert(forall|i: int|
                        0 <= i < fv.len() ==> #[trigger] fv[i] == (if i < p {
                            v0[i]
                        } else {
                            v0[i + 1]
                        }));
                    if old(self).cache_wf() {
                        let fp = final(self).spec_paths();
                        assert forall|j: int|
                            0 <= j < fp.len() implies (#[trigger] fp[j]) != path@ by {
                            assert(fp[j] == fv[j].0);
                            assert(v0[p as int].0 == path@);
                        }
                    }
                }
                Some(entry.resource)
            },
            None => None,
        }
    }

    /// Empties the cache.
    pub fn clear(&mut self)
        ensures
            final(self).spec_len() == 0,
            final(self).spec_current_size() == 0,
            final(self).spec_max_size() == old(self).spec_max_size(),
            forall|p: Seq<char>| !final(self).spec_contains(p),
            final(self).cache_wf(),
    {
        self.entries = Vec::new();
        self.current_size = 0;
        proof {
            assert forall|p: Seq<char>| !final(self).spec_contains(p) by {
                assert(final(self).spec_paths().len() == 0);
            }
        }
    }

    /// The totals.
    pub fn stats(&self) -> (r: CacheStats)
        ensures
            r.total_resources as int == self.spec_len(),
            r.total_size as int == self.spec_current_size(),
            r.max_size as int == self.spec_max_size(),
    {
        CacheStats {
            total_resources: self.entries.len(),
            total_size: self.current_size,
            max_size: self.max_size,
        }
    }
}

} // verus!
