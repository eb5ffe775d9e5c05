use vstd::prelude::*;

verus! {

/// What the host is asked to do with a texture file.
#[derive(Debug, Clone, Copy, PartialEq, Eq, Structural, Hash)]
pub enum AssetCommandType {
    LoadTexture,
    ReloadTexture,
}

/// One request handed to the host.
#[derive(Debug)]
pub struct AssetCommand {
    pub request_id: u32,
    pub type_: AssetCommandType,
    pub path: String,
}

/// A request waiting for the host's completion notice.
#[derive(Debug)]
pub struct PendingAssetRequest {
    pub request_id: u32,
    pub path: String,
    pub command_type: AssetCommandType,
    pub dispatched: bool,
}

/// A registered texture: its path, its handle, the registry's own asset id,
/// and the host's asset id once a load of it has completed.
#[derive(Debug)]
pub struct TextureRecord {
    pub path: String,
    pub handle: u32,
    pub asset_id: u64,
    pub resolved_id: Option<u32>,
}

/// The texture registry and its queue of requests to the host.
///
/// Texture `i` (in registration order) has handle and asset id `i + 1`;
/// pending requests are kept in the order of their ids.
#[derive(Debug)]
pub struct AssetServer {
    pub pending_requests: Vec<PendingAssetRequest>,
    pub textures: Vec<TextureRecord>,
    pub next_request_id: u32,
    pub next_texture_handle: u32,
    pub next_asset_id: u64,
}

impl AssetServer {
    pub open spec fn has_path(&self, p: Seq<char>) -> bool {
        exists|i: int| 0 <= i < self.textures@.len() && #[trigger] self.textures@[i].path@ == p
    }

    pub open spec fn has_pending_path(&self, p: Seq<char>) -> bool {
        exists|i: int|
            0 <= i < self.pending_requests@.len() && #[trigger] self.pending_requests@[i].path@
                == p
    }

    /// The path ↔ handle ↔ asset id registry is a bijection.
    pub open spec fn registry_consistent(&self) -> bool {
        &&& forall|i: int|
            0 <= i < self.textures@.len() ==> #[trigger] self.textures@[i].handle == i + 1
                && self.textures@[i].asset_id == i + 1
        &&& forall|i: int, j: int|
            0 <= i < self.textures@.len() && 0 <= j < self.textures@.len() && i != j
                ==> #[trigger] self.textures@[i].path@ != #[trigger] self.textures@[j].path@
    }

    #[verifier::opaque]
    pub open spec fn wf(&self) -> bool {
        &&& self.registry_consistent()
        &&& self.next_texture_handle == self.textures@.len() + 1
        &&& self.next_asset_id == self.textures@.len() + 1
        &&& 1 <= self.next_request_id
        &&& forall|i: int|
            0 <= i < self.pending_requests@.len() ==> #[trigger] self.pending_requests@[i].request_id
                < self.next_request_id && self.has_path(self.pending_requests@[i].path@)
        &&& forall|i: int, j: int|
            0 <= i < j < self.pending_requests@.len()
                ==> #[trigger] self.pending_requests@[i].request_id
                < #[trigger] self.pending_requests@[j].request_id
    }

    /// The handle of a registered path.
    pub open spec fn handle_of(&self, p: Seq<char>) -> u32 {
        let i = choose|i: int| 0 <= i < self.textures@.len() && #[trigger] self.textures@[i].path@ == p;
        self.textures@[i].handle
    }

    /// A request that was dispatched stays dispatched, every request added
    /// has an id not used before, and no record changes its path.
    #[verifier::opaque]
    pub open spec fn keeps_history(old_server: AssetServer, new_server: AssetServer) -> bool {
        &&& old_server.next_request_id <= new_server.next_request_id
        &&& forall|i: int|
            0 <= i < new_server.pending_requests@.len() ==> {
                let req = #[trigger] new_server.pending_requests@[i];
                req.request_id < old_server.next_request_id ==> exists|j: int|
                    0 <= j < old_server.pending_requests@.len()
                        && old_server.pending_requests@[j].request_id == req.request_id
                        && (old_server.pending_requests@[j].dispatched ==> req.dispatched)
            }
    }

    pub fn new() -> (r: AssetServer)
        ensures
            r.wf(),
            r.textures@.len() == 0,
            r.pending_requests@.len() == 0,
            r.next_request_id == 1,
            r.next_texture_handle == 1,
            r.next_asset_id == 1,
    {
        proof {
            reveal(AssetServer::wf);
            reveal(AssetServer::keeps_history);
        }
        AssetServer {
            pending_requests: Vec::new(),
            textures: Vec::new(),
            next_request_id: 1,
            next_texture_handle: 1,
            next_asset_id: 1,
        }
    }

    fn find_texture(&self, path: &String) -> (r: Option<usize>)
        requires
            self.wf(),
        ensures
            match r {
                Some(i) => i < self.textures@.len() && self.textures@[i as int].path@ == path@,
                None => !self.has_path(path@),
            },
    {
        let mut i: usize = 0;
        while i < self.textures.len()
            invariant
                i <= self.textures@.len(),
                forall|j: int| 0 <= j < i ==> self.textures@[j].path@ != path@,
            decreases self.textures.len() - i,
        {
            if self.textures[i].path == *path {
                return Some(i);
            }
            i += 1;
        }
        None
    }

    fn has_pending(&self, path: &String) -> (r: bool)
        ensures
            r == self.has_pending_path(path@),
    {
        let mut i: usize = 0;
        while i < self.pending_requests.len()
            invariant
                i <= self.pending_requests@.len(),
                forall|j: int| 0 <= j < i ==> self.pending_requests@[j].path@ != path@,
            decreases self.pending_requests.len() - i,
        {
            if self.pending_requests[i].path == *path {
                return true;
            }
            i += 1;
        }
        false
    }

    /// Queues a request for the path, unless the request ids are used up.
    fn enqueue_request(&mut self, path: String, command_type: AssetCommandType) -> (queued: bool)
        requires
            old(self).wf(),
            old(self).has_path(path@),
        ensures
            final(self).wf(),
            queued == (old(self).next_request_id < u32::MAX),
            final(self).textures@ == old(self).textures@,
            queued ==> final(self).next_request_id == old(self).next_request_id + 1,
            queued ==> final(self).pending_requests@.len() == old(self).pending_requests@.len() + 1,
            queued ==> final(self).pending_requests@.subrange(
                0,
                old(self).pending_requests@.len() as int,
            ) == old(self).pending_requests@,
            queued ==> ({
                let req = final(self).pending_requests@.last();
                &&& req.request_id == old(self).next_request_id
                &&& req.path@ == path@
                &&& req.command_type == command_type
                &&& !req.dispatched
            }),
            !queued ==> *final(self) == *old(self),
            Self::keeps_history(*old(self), *final(self)),
    {
        proof {
            reveal(AssetServer::wf);
            reveal(AssetServer::keeps_history);
        }
        if self.next_request_id == u32::MAX {
            return false;
        }
        let request_id = self.next_request_id;
        let ghost before = *self;
        self.pending_requests.push(
            PendingAssetRequest { request_id, path, command_type, dispatched: false },
        );
        self.next_request_id = request_id + 1;
        proof {
            assert(self.pending_requests@.subrange(0, before.pending_requests@.len() as int)
                =~= before.pending_requests@);
            assert forall|i: int| 0 <= i < self.pending_requests@.len() implies {
                let req = #[trigger] self.pending_requests@[i];
                req.request_id < before.next_request_id ==> exists|j: int|
                    0 <= j < before.pending_requests@.len()
                        && before.pending_requests@[j].request_id == req.request_id
                        && (before.pending_requests@[j].dispatched ==> req.dispatched)
            } by {
                if i < before.pending_requests@.len() {
                    assert(self.pending_requests@[i] == before.pending_requests@[i]);
                }
            }
            assert forall|i: int| 0 <= i < self.pending_requests@.len() implies #[trigger] self.pending_requests@[i].request_id
                < self.next_request_id && self.has_path(self.pending_requests@[i].path@) by {
                if i < before.pending_requests@.len() {
                    assert(self.pending_requests@[i] == before.pending_requests@[i]);
                }
            }
            assert forall|i: int, j: int| 0 <= i < j < self.pending_requests@.len()
                implies #[trigger] self.pending_requests@[i].request_id
                < #[trigger] self.pending_requests@[j].request_id by {
                assert(self.pending_requests@[i] == before.pending_requests@[i]);
                if j < before.pending_requests@.len() {
                    assert(self.pending_requests@[j] == before.pending_requests@[j]);
                }
            }
        }
        true
    }

    /// The counters of a well-formed server.
    pub proof fn lemma_wf_counters(&self)
        requires
            self.wf(),
        ensures
            self.next_texture_handle == self.textures@.len() + 1,
            self.next_asset_id == self.textures@.len() + 1,
            1 <= self.next_request_id,
    {
        reveal(AssetServer::wf);
    }

    /// A server with the same requests and ids keeps its history.
    pub proof fn lemma_keeps_history_refl(a: AssetServer, b: AssetServer)
        requires
            a.next_request_id == b.next_request_id,
            a.pending_requests@ == b.pending_requests@,
        ensures
            Self::keeps_history(a, b),
    {
        reveal(AssetServer::wf);
        reveal(AssetServer::keeps_history);
        assert forall|i: int| 0 <= i < b.pending_requests@.len() implies {
            let req = #[trigger] b.pending_requests@[i];
            req.request_id < a.next_request_id ==> exists|j: int|
                0 <= j < a.pending_requests@.len()
                    && a.pending_requests@[j].request_id == req.request_id
                    && (a.pending_requests@[j].dispatched ==> req.dispatched)
        } by {
            assert(a.pending_requests@[i] == b.pending_requests@[i]);
        }
    }

    /// Keeping history is transitive, so it holds across any run of calls.
    pub proof fn lemma_keeps_history_trans(a: AssetServer, b: AssetServer, c: AssetServer)
        requires
            Self::keeps_history(a, b),
            Self::keeps_history(b, c),
        ensures
            Self::keeps_history(a, c),
    {
        reveal(AssetServer::wf);
        reveal(AssetServer::keeps_history);
        assert forall|i: int| 0 <= i < c.pending_requests@.len() implies {
            let req = #[trigger] c.pending_requests@[i];
            req.request_id < a.next_request_id ==> exists|j: int|
                0 <= j < a.pending_requests@.len()
                    && a.pending_requests@[j].request_id == req.request_id
                    && (a.pending_requests@[j].dispatched ==> req.dispatched)
        } by {
            let req = c.pending_requests@[i];
            if req.request_id < a.next_request_id {
                let j = choose|j: int|
                    0 <= j < b.pending_requests@.len()
                        && b.pending_requests@[j].request_id == req.request_id
                        && (b.pending_requests@[j].dispatched ==> req.dispatched);
                let mid = b.pending_requests@[j];
                let k = choose|k: int|
                    0 <= k < a.pending_requests@.len()
                        && a.pending_requests@[k].request_id == mid.request_id
                        && (a.pending_requests@[k].dispatched ==> mid.dispatched);
                assert(a.pending_requests@[k].request_id == req.request_id);
            }
        }
    }

    /// Pending requests hold the same requests as before, plus one new
    /// undispatched request with the next id, for `p` and of type `ty`.
    pub open spec fn appended_request(
        old_server: AssetServer,
        new_server: AssetServer,
        p: Seq<char>,
        ty: AssetCommandType,
    ) -> bool {
        &&& new_server.next_request_id == old_server.next_request_id + 1
        &&& new_server.pending_requests@.len() == old_server.pending_requests@.len() + 1
        &&& new_server.pending_requests@.subrange(0, old_server.pending_requests@.len() as int)
            == old_server.pending_requests@
        &&& new_server.pending_requests@.last().request_id == old_server.next_request_id
        &&& new_server.pending_requests@.last().path@ == p
        &&& new_server.pending_requests@.last().command_type == ty
        &&& !new_server.pending_requests@.last().dispatched
    }

    /// What `load_texture(p)` does: a known path gives its handle and changes
    /// nothing; a new path is registered under the next handle and one load
    /// request is queued for it.
    pub open spec fn load_result(
        old_server: AssetServer,
        new_server: AssetServer,
        p: Seq<char>,
        handle: u32,
    ) -> bool {
        if old_server.has_path(p) {
            handle == old_server.handle_of(p) && new_server == old_server
        } else if old_server.next_texture_handle == u32::MAX {
            handle == 0 && new_server == old_server
        } else {
            &&& handle == old_server.next_texture_handle
            &&& new_server.textures@.len() == old_server.textures@.len() + 1
            &&& new_server.textures@.subrange(0, old_server.textures@.len() as int)
                == old_server.textures@
            &&& new_server.textures@.last().path@ == p
            &&& new_server.textures@.last().handle == handle
            &&& new_server.textures@.last().resolved_id is None
            &&& new_server.has_path(p)
            &&& new_server.handle_of(p) == handle
            &&& if old_server.next_request_id < u32::MAX {
                Self::appended_request(old_server, new_server, p, AssetCommandType::LoadTexture)
            } else {
                &&& new_server.next_request_id == old_server.next_request_id
                &&& new_server.pending_requests@ == old_server.pending_requests@
            }
        }
    }

    proof fn lemma_handle_of_index(&self, i: int)
        requires
            self.wf(),
            0 <= i < self.textures@.len(),
        ensures
            self.has_path(self.textures@[i].path@),
            self.handle_of(self.textures@[i].path@) == i + 1,
            self.textures@[i].handle == i + 1,
    {
        reveal(AssetServer::wf);
        reveal(AssetServer::keeps_history);
        let p = self.textures@[i].path@;
        let j = choose|j: int| 0 <= j < self.textures@.len() && #[trigger] self.textures@[j].path@ == p;
        assert(i == j);
    }

    /// Registers the path if it is new, queueing one load request, and
    /// returns its handle. The same path always gives the same handle.
    #[verifier::rlimit(50)]
    pub fn load_texture(&mut self, path: &str) -> (handle: u32)
        requires
            old(self).wf(),
        ensures
            final(self).wf(),
            Self::load_result(*old(self), *final(self), path@, handle),
            Self::keeps_history(*old(self), *final(self)),
    {
        let owned = path.to_owned();
        match self.find_texture(&owned) {
            Some(i) => {
                proof {
                    self.lemma_handle_of_index(i as int);
                    Self::lemma_keeps_history_refl(*self, *self);
                }
                return self.textures[i].handle;
            },
            None => {},
        }
        if self.next_texture_handle == u32::MAX {
            proof {
                Self::lemma_keeps_history_refl(*self, *self);
            }
            return 0;
        }
        let ghost before = *self;
        proof {
            self.lemma_wf_counters();
        }
        let handle = self.next_texture_handle;
        self.textures.push(
            TextureRecord {
                path: path.to_owned(),
                handle,
                asset_id: self.next_asset_id,
                resolved_id: None,
            },
        );
        self.next_texture_handle = handle + 1;
        self.next_asset_id = self.next_asset_id + 1;
        proof {
            assert(self.textures@.subrange(0, before.textures@.len() as int) =~= before.textures@);
            Self::lemma_registered_wf(before, *self, path@);
            self.lemma_handle_of_index(before.textures@.len() as int);
        }
        let ghost registered = *self;
        self.enqueue_request(owned, AssetCommandType::LoadTexture);
        proof {
            assert(self.has_path(path@) == registered.has_path(path@));
            assert(self.handle_of(path@) == registered.handle_of(path@));
            Self::lemma_keeps_history_refl(before, registered);
            Self::lemma_keeps_history_trans(before, registered, *self);
        }
        handle
    }

    proof fn lemma_registered_wf(before: AssetServer, after: AssetServer, p: Seq<char>)
        requires
            before.wf(),
            !before.has_path(p),
            after.pending_requests@ == before.pending_requests@,
            after.next_request_id == before.next_request_id,
            after.next_texture_handle == before.next_texture_handle + 1,
            after.next_asset_id == before.next_asset_id + 1,
            after.textures@.len() == before.textures@.len() + 1,
            after.textures@.subrange(0, before.textures@.len() as int) == before.textures@,
            after.textures@.last().path@ == p,
            after.textures@.last().handle == before.next_texture_handle,
            after.textures@.last().asset_id == before.next_asset_id,
        ensures
            after.wf(),
    {
        reveal(AssetServer::wf);
        reveal(AssetServer::keeps_history);
        let n = before.textures@.len() as int;
        assert forall|i: int| 0 <= i < n implies after.textures@[i] == before.textures@[i] by {
            assert(after.textures@.subrange(0, n)[i] == after.textures@[i]);
        }
        assert forall|i: int| 0 <= i < after.textures@.len() implies #[trigger] after.textures@[i].handle == i + 1
            && after.textures@[i].asset_id == i + 1 by {
            if i < n {
                assert(after.textures@[i] == before.textures@[i]);
            }
        }
        assert forall|i: int, j: int|
            0 <= i < after.textures@.len() && 0 <= j < after.textures@.len() && i != j
            implies #[trigger] after.textures@[i].path@ != #[trigger] after.textures@[j].path@ by {
            if i < n {
                assert(after.textures@[i] == before.textures@[i]);
            }
            if j < n {
                assert(after.textures@[j] == before.textures@[j]);
            }
        }
        assert forall|i: int| 0 <= i < after.pending_requests@.len() implies #[trigger] after.pending_requests@[i].request_id
            < after.next_request_id && after.has_path(after.pending_requests@[i].path@) by {
            let q = after.pending_requests@[i].path@;
            assert(before.pending_requests@[i].request_id < before.next_request_id);
            assert(before.has_path(q));
            let j = choose|j: int| 0 <= j < before.textures@.len() && #[trigger] before.textures@[j].path@ == q;
            assert(after.textures@[j] == before.textures@[j]);
        }
    }

    /// Queues a reload of a registered path that has no pending request;
    /// otherwise does nothing and returns false.
    pub fn reimport_texture(&mut self, path: &str) -> (queued: bool)
        requires
            old(self).wf(),
        ensures
            final(self).wf(),
            queued == (old(self).has_path(path@) && !old(self).has_pending_path(path@)
                && old(self).next_request_id < u32::MAX),
            queued ==> Self::appended_request(
                *old(self),
                *final(self),
                path@,
                AssetCommandType::ReloadTexture,
            ),
            final(self).textures@ == old(self).textures@,
            !queued ==> *final(self) == *old(self),
            Self::keeps_history(*old(self), *final(self)),
    {
        let owned = path.to_owned();
        proof {
            Self::lemma_keeps_history_refl(*self, *self);
        }
        match self.find_texture(&owned) {
            None => {
                return false;
            },
            Some(_) => {},
        }
        if self.has_pending(&owned) {
            return false;
        }
        self.enqueue_request(owned, AssetCommandType::ReloadTexture)
    }

    /// Queues a reload of every registered texture that has no pending
    /// request, in registration order, and returns how many were queued.
    #[verifier::rlimit(50)]
    pub fn reimport_all_textures(&mut self) -> (queued_count: usize)
        requires
            old(self).wf(),
        ensures
            final(self).wf(),
            final(self).textures@ == old(self).textures@,
            Self::keeps_history(*old(self), *final(self)),
            final(self).pending_requests@.len() == old(self).pending_requests@.len() + queued_count,
            final(self).pending_requests@.subrange(0, old(self).pending_requests@.len() as int)
                == old(self).pending_requests@,
            forall|i: int|
                old(self).pending_requests@.len() <= i < final(self).pending_requests@.len() ==> {
                    let req = #[trigger] final(self).pending_requests@[i];
                    &&& req.command_type == AssetCommandType::ReloadTexture
                    &&& !req.dispatched
                    &&& !old(self).has_pending_path(req.path@)
                },
            forall|i: int, j: int|
                old(self).pending_requests@.len() <= i < j < final(self).pending_requests@.len()
                    ==> #[trigger] final(self).pending_requests@[i].path@ != #[trigger] final(self).pending_requests@[j].path@,
            final(self).next_request_id < u32::MAX ==> forall|i: int|
                0 <= i < final(self).textures@.len() ==> final(self).has_pending_path(
                    #[trigger] final(self).textures@[i].path@,
                ),
    {
        let mut queued_count: usize = 0;
        let mut i: usize = 0;
        let ghost start = *self;
        let start_len = self.pending_requests.len();
        proof {
            self.lemma_wf_requests();
            Self::lemma_keeps_history_refl(*self, *self);
        }
        while i < self.textures.len()
            invariant
                self.wf(),
                start.wf(),
                i <= self.textures@.len(),
                self.textures@ == start.textures@,
                start_len == start.pending_requests@.len(),
                Self::keeps_history(start, *self),
                self.pending_requests@.len() == start.pending_requests@.len() + queued_count,
                self.pending_requests@.subrange(0, start.pending_requests@.len() as int)
                    == start.pending_requests@,
                forall|k: int|
                    start.pending_requests@.len() <= k < self.pending_requests@.len() ==> {
                        let req = #[trigger] self.pending_requests@[k];
                        &&& req.command_type == AssetCommandType::ReloadTexture
                        &&& !req.dispatched
                        &&& !start.has_pending_path(req.path@)
                    },
                self.next_request_id < u32::MAX ==> forall|k: int|
                    0 <= k < i ==> self.has_pending_path(#[trigger] self.textures@[k].path@),
                start.registry_consistent(),
                forall|k: int|
                    start.pending_requests@.len() <= k < self.pending_requests@.len() ==> exists|m: int|
                        0 <= m < i && #[trigger] self.pending_requests@[k].path@ == start.textures@[m].path@,
                forall|k1: int, k2: int|
                    start.pending_requests@.len() <= k1 < k2 < self.pending_requests@.len()
                        ==> #[trigger] self.pending_requests@[k1].path@ != #[trigger] self.pending_requests@[k2].path@,
            decreases self.textures.len() - i,
        {
            let ghost before = *self;
            let path = self.textures[i].path.clone();
            let queued = self.reimport_texture(path.as_str());
            if queued {
                queued_count = self.pending_requests.len() - start_len;
            }
            proof {
                let n = start.pending_requests@.len() as int;
                let last = self.pending_requests@.len() - 1;
                if queued {
                    assert(self.pending_requests@[last].path@ == start.textures@[i as int].path@);
                    assert forall|k: int|
                        n <= k < self.pending_requests@.len() implies exists|m: int|
                            0 <= m < i + 1 && #[trigger] self.pending_requests@[k].path@ == start.textures@[m].path@ by {
                        if k < last {
                            assert(self.pending_requests@[k] == before.pending_requests@[k]);
                            let m = choose|m: int| 0 <= m < i && #[trigger] before.pending_requests@[k].path@ == start.textures@[m].path@;
                            assert(self.pending_requests@[k].path@ == start.textures@[m].path@);
                        } else {
                            assert(self.pending_requests@[k].path@ == start.textures@[i as int].path@);
                        }
                    }
                    assert forall|k1: int, k2: int|
                        n <= k1 < k2 < self.pending_requests@.len() implies #[trigger] self.pending_requests@[k1].path@
                            != #[trigger] self.pending_requests@[k2].path@ by {
                        assert(self.pending_requests@[k1] == before.pending_requests@[k1]);
                        if k2 == last {
                            let m = choose|m: int| 0 <= m < i && #[trigger] before.pending_requests@[k1].path@ == start.textures@[m].path@;
                            assert(start.textures@[m].path@ != start.textures@[i as int].path@);
                        } else {
                            assert(self.pending_requests@[k2] == before.pending_requests@[k2]);
                        }
                    }
                    assert(self.pending_requests@.subrange(0, n) =~= before.pending_requests@.subrange(0, n));
                    assert forall|k: int|
                        n <= k < self.pending_requests@.len() implies {
                            let req = #[trigger] self.pending_requests@[k];
                            &&& req.command_type == AssetCommandType::ReloadTexture
                            &&& !req.dispatched
                            &&& !start.has_pending_path(req.path@)
                        } by {
                        if k < before.pending_requests@.len() {
                            assert(self.pending_requests@[k] == before.pending_requests@[k]);
                        } else {
                            if start.has_pending_path(path@) {
                                let j = choose|j: int| 0 <= j < start.pending_requests@.len()
                                    && #[trigger] start.pending_requests@[j].path@ == path@;
                                assert(before.pending_requests@[j] == start.pending_requests@[j]);
                            }
                        }
                    }
                    assert(self.has_pending_path(self.textures@[i as int].path@)) by {
                        let last = self.pending_requests@.len() - 1;
                        assert(self.pending_requests@[last].path@ == path@);
                    }
                    assert forall|k: int| 0 <= k < i implies self.has_pending_path(
                        #[trigger] self.textures@[k].path@) by {
                        if before.next_request_id < u32::MAX {
                            let q = self.textures@[k].path@;
                            assert(before.has_pending_path(q));
                            let j = choose|j: int| 0 <= j < before.pending_requests@.len()
                                && #[trigger] before.pending_requests@[j].path@ == q;
                            assert(self.pending_requests@[j] == before.pending_requests@[j]);
                        }
                    }
                } else {
                    assert(self.textures@[i as int].path@ == path@);
                    assert(before.has_path(path@));
                    assert forall|k: int|
                        n <= k < self.pending_requests@.len() implies exists|m: int|
                            0 <= m < i + 1 && #[trigger] self.pending_requests@[k].path@ == start.textures@[m].path@ by {
                        let m = choose|m: int| 0 <= m < i && #[trigger] self.pending_requests@[k].path@ == start.textures@[m].path@;
                    }
                }
                Self::lemma_keeps_history_trans(start, before, *self);
            }
            i += 1;
        }
        queued_count
    }

    /// Pending requests keep their ids in increasing order, each for a registered path.
    pub proof fn lemma_wf_requests(&self)
        requires
            self.wf(),
        ensures
            forall|i: int, j: int|
                0 <= i < j < self.pending_requests@.len()
                    ==> #[trigger] self.pending_requests@[i].request_id
                    < #[trigger] self.pending_requests@[j].request_id,
            forall|i: int|
                0 <= i < self.pending_requests@.len() ==> #[trigger] self.pending_requests@[i].request_id
                    < self.next_request_id && self.has_path(self.pending_requests@[i].path@),
            self.registry_consistent(),
    {
        reveal(AssetServer::wf);
    }

    /// A path that is not registered has no pending request.
    pub proof fn lemma_unregistered_not_pending(&self, p: Seq<char>)
        requires
            self.wf(),
            !self.has_path(p),
        ensures
            !self.has_pending_path(p),
    {
        reveal(AssetServer::wf);
        if self.has_pending_path(p) {
            let i = choose|i: int|
                0 <= i < self.pending_requests@.len() && #[trigger] self.pending_requests@[i].path@
                    == p;
            assert(self.pending_requests@[i].request_id < self.next_request_id);
        }
    }

    proof fn lemma_same_requests(a: AssetServer, b: AssetServer)
        requires
            a.wf(),
            b.textures@.len() == a.textures@.len(),
            forall|i: int|
                0 <= i < a.textures@.len() ==> (#[trigger] b.textures@[i]).path@
                    == a.textures@[i].path@ && b.textures@[i].handle == a.textures@[i].handle
                    && b.textures@[i].asset_id == a.textures@[i].asset_id,
            b.next_request_id == a.next_request_id,
            b.next_texture_handle == a.next_texture_handle,
            b.next_asset_id == a.next_asset_id,
            b.pending_requests@.len() == a.pending_requests@.len(),
            forall|i: int|
                0 <= i < a.pending_requests@.len() ==> (#[trigger] b.pending_requests@[i]).request_id
                    == a.pending_requests@[i].request_id && b.pending_requests@[i].path@
                    == a.pending_requests@[i].path@ && (a.pending_requests@[i].dispatched
                    ==> b.pending_requests@[i].dispatched),
        ensures
            b.wf(),
            Self::keeps_history(a, b),
            forall|p: Seq<char>| b.has_path(p) == a.has_path(p),
    {
        reveal(AssetServer::wf);
        reveal(AssetServer::keeps_history);
        assert forall|p: Seq<char>| b.has_path(p) == a.has_path(p) by {
            if b.has_path(p) {
                let i = choose|i: int| 0 <= i < b.textures@.len() && #[trigger] b.textures@[i].path@ == p;
                assert(a.textures@[i].path@ == p);
            }
            if a.has_path(p) {
                let i = choose|i: int| 0 <= i < a.textures@.len() && #[trigger] a.textures@[i].path@ == p;
                assert(b.textures@[i].path@ == p);
            }
        }
        assert forall|i: int, j: int|
            0 <= i < b.textures@.len() && 0 <= j < b.textures@.len() && i != j
            implies #[trigger] b.textures@[i].path@ != #[trigger] b.textures@[j].path@ by {
            assert(a.textures@[i].path@ != a.textures@[j].path@);
        }
        assert forall|i: int| 0 <= i < b.pending_requests@.len() implies {
            let req = #[trigger] b.pending_requests@[i];
            req.request_id < a.next_request_id ==> exists|j: int|
                0 <= j < a.pending_requests@.len()
                    && a.pending_requests@[j].request_id == req.request_id
                    && (a.pending_requests@[j].dispatched ==> req.dispatched)
        } by {
            assert(a.pending_requests@[i].request_id == b.pending_requests@[i].request_id);
        }
        assert forall|i: int| 0 <= i < b.pending_requests@.len() implies #[trigger] b.pending_requests@[i].request_id
            < b.next_request_id && b.has_path(b.pending_requests@[i].path@) by {
            assert(a.pending_requests@[i].request_id < a.next_request_id);
            assert(a.has_path(a.pending_requests@[i].path@));
        }
        assert forall|i: int, j: int| 0 <= i < j < b.pending_requests@.len()
            implies #[trigger] b.pending_requests@[i].request_id
            < #[trigger] b.pending_requests@[j].request_id by {
            assert(a.pending_requests@[i].request_id < a.pending_requests@[j].request_id);
        }
    }

    /// Whether a request with this id is pending and not yet dispatched.
    pub open spec fn awaits_dispatch(&self, id: u32) -> bool {
        exists|i: int|
            0 <= i < self.pending_requests@.len() && self.pending_requests@[i].request_id == id
                && !self.pending_requests@[i].dispatched
    }

    /// What `process` does: every request is now dispatched and otherwise
    /// unchanged, and `ids` lists, in increasing order, exactly the requests
    /// that were not dispatched before.
    pub open spec fn dispatched_batch(
        old_server: AssetServer,
        new_server: AssetServer,
        ids: Seq<u32>,
    ) -> bool {
        &&& new_server.textures@ == old_server.textures@
        &&& new_server.next_request_id == old_server.next_request_id
        &&& new_server.pending_requests@.len() == old_server.pending_requests@.len()
        &&& forall|i: int|
            0 <= i < old_server.pending_requests@.len() ==> {
                let before = #[trigger] old_server.pending_requests@[i];
                let after = new_server.pending_requests@[i];
                &&& after.request_id == before.request_id
                &&& after.path@ == before.path@
                &&& after.command_type == before.command_type
                &&& after.dispatched
            }
        &&& forall|k: int| 0 <= k < ids.len() ==> old_server.awaits_dispatch(#[trigger] ids[k])
        &&& forall|i: int|
            0 <= i < old_server.pending_requests@.len()
                && !(#[trigger] old_server.pending_requests@[i]).dispatched ==> ids.contains(
                old_server.pending_requests@[i].request_id,
            )
        &&& forall|k: int, l: int| 0 <= k < l < ids.len() ==> #[trigger] ids[k] < #[trigger] ids[l]
    }

    pub open spec fn command_ids(commands: Seq<AssetCommand>) -> Seq<u32> {
        commands.map_values(|c: AssetCommand| c.request_id)
    }

    /// Turns every undispatched request into a command for the host, in
    /// request order, and marks it dispatched.
    pub fn process(&mut self) -> (commands: Vec<AssetCommand>)
        requires
            old(self).wf(),
        ensures
            final(self).wf(),
            Self::keeps_history(*old(self), *final(self)),
            Self::dispatched_batch(*old(self), *final(self), Self::command_ids(commands@)),
            forall|k: int|
                0 <= k < commands@.len() ==> exists|i: int|
                    0 <= i < old(self).pending_requests@.len()
                        && old(self).pending_requests@[i].request_id
                        == (#[trigger] commands@[k]).request_id
                        && old(self).pending_requests@[i].path@ == commands@[k].path@
                        && old(self).pending_requests@[i].command_type == commands@[k].type_,
    {
        let ghost start = *self;
        proof {
            self.lemma_wf_requests();
        }
        let mut commands: Vec<AssetCommand> = Vec::new();
        let mut i: usize = 0;
        while i < self.pending_requests.len()
            invariant
                i <= self.pending_requests@.len(),
                self.pending_requests@.len() == start.pending_requests@.len(),
                self.textures@ == start.textures@,
                self.next_request_id == start.next_request_id,
                self.next_texture_handle == start.next_texture_handle,
                self.next_asset_id == start.next_asset_id,
                forall|a: int, b: int|
                    0 <= a < b < start.pending_requests@.len()
                        ==> #[trigger] start.pending_requests@[a].request_id
                        < #[trigger] start.pending_requests@[b].request_id,
                forall|j: int|
                    0 <= j < start.pending_requests@.len() ==> {
                        let before = #[trigger] start.pending_requests@[j];
                        let after = self.pending_requests@[j];
                        &&& after.request_id == before.request_id
                        &&& after.path@ == before.path@
                        &&& after.command_type == before.command_type
                        &&& if j < i {
                            after.dispatched
                        } else {
                            after.dispatched == before.dispatched
                        }
                    },
                forall|k: int|
                    0 <= k < commands@.len() ==> exists|j: int|
                        0 <= j < i && start.pending_requests@[j].request_id
                            == (#[trigger] commands@[k]).request_id
                            && !start.pending_requests@[j].dispatched
                            && start.pending_requests@[j].path@ == commands@[k].path@
                            && start.pending_requests@[j].command_type == commands@[k].type_,
                forall|j: int|
                    0 <= j < i && !(#[trigger] start.pending_requests@[j]).dispatched
                        ==> Self::command_ids(commands@).contains(
                        start.pending_requests@[j].request_id,
                    ),
                forall|k: int, l: int|
                    0 <= k < l < commands@.len() ==> #[trigger] commands@[k].request_id
                        < #[trigger] commands@[l].request_id,
            decreases self.pending_requests.len() - i,
        {
            if !self.pending_requests[i].dispatched {
                let ghost old_commands = commands@;
                let command = AssetCommand {
                    request_id: self.pending_requests[i].request_id,
                    type_: self.pending_requests[i].command_type,
                    path: self.pending_requests[i].path.clone(),
                };
                commands.push(command);
                self.pending_requests[i].dispatched = true;
                proof {
                    assert forall|k: int| 0 <= k < commands@.len() implies exists|j: int|
                        0 <= j < i + 1 && start.pending_requests@[j].request_id
                            == (#[trigger] commands@[k]).request_id
                            && !start.pending_requests@[j].dispatched
                            && start.pending_requests@[j].path@ == commands@[k].path@
                            && start.pending_requests@[j].command_type == commands@[k].type_ by {
                        if k < old_commands.len() {
                            assert(commands@[k] == old_commands[k]);
                        } else {
                            assert(start.pending_requests@[i as int].request_id == commands@[k].request_id);
                        }
                    }
                    assert forall|j: int|
                        0 <= j < i + 1 && !(#[trigger] start.pending_requests@[j]).dispatched
                        implies Self::command_ids(commands@).contains(
                        start.pending_requests@[j].request_id) by {
                        if j < i {
                            let k = choose|k: int| 0 <= k < old_commands.len()
                                && Self::command_ids(old_commands)[k] == start.pending_requests@[j].request_id;
                            assert(Self::command_ids(commands@)[k] == start.pending_requests@[j].request_id);
                        } else {
                            let k = commands@.len() - 1;
                            assert(Self::command_ids(commands@)[k] == start.pending_requests@[j].request_id);
                        }
                    }
                    assert forall|k: int, l: int|
                        0 <= k < l < commands@.len() implies #[trigger] commands@[k].request_id
                        < #[trigger] commands@[l].request_id by {
                        if l == commands@.len() - 1 {
                            assert(commands@[k] == old_commands[k]);
                            let j = choose|j: int|
                                0 <= j < i && start.pending_requests@[j].request_id
                                    == (#[trigger] old_commands[k]).request_id
                                    && !start.pending_requests@[j].dispatched
                                    && start.pending_requests@[j].path@ == old_commands[k].path@
                                    && start.pending_requests@[j].command_type == old_commands[k].type_;
                            assert(start.pending_requests@[j].request_id
                                < start.pending_requests@[i as int].request_id);
                        } else {
                            assert(commands@[k] == old_commands[k]);
                            assert(commands@[l] == old_commands[l]);
                        }
                    }
                }
            }
            i += 1;
        }
        proof {
            Self::lemma_same_requests(start, *self);
            let ids = Self::command_ids(commands@);
            assert forall|k: int| 0 <= k < ids.len() implies start.awaits_dispatch(#[trigger] ids[k]) by {
                assert(ids[k] == commands@[k].request_id);
                let j = choose|j: int|
                    0 <= j < i && start.pending_requests@[j].request_id
                        == (#[trigger] commands@[k]).request_id
                        && !start.pending_requests@[j].dispatched
                        && start.pending_requests@[j].path@ == commands@[k].path@
                        && start.pending_requests@[j].command_type == commands@[k].type_;
                assert(start.pending_requests@[j].request_id == ids[k]);
            }
            assert forall|k: int, l: int| 0 <= k < l < ids.len() implies #[trigger] ids[k]
                < #[trigger] ids[l] by {
                assert(commands@[k].request_id < commands@[l].request_id);
            }
            assert forall|j: int|
                0 <= j < start.pending_requests@.len()
                    && !(#[trigger] start.pending_requests@[j]).dispatched implies ids.contains(
                    start.pending_requests@[j].request_id) by {
                assert(j < i);
            }
            assert forall|j: int| 0 <= j < start.pending_requests@.len() implies {
                let before = #[trigger] start.pending_requests@[j];
                let after = self.pending_requests@[j];
                &&& after.request_id == before.request_id
                &&& after.path@ == before.path@
                &&& after.command_type == before.command_type
                &&& after.dispatched
            } by {
                assert(j < i);
            }
        }
        commands
    }

    proof fn lemma_removed_request(a: AssetServer, b: AssetServer, i: int)
        requires
            a.wf(),
            0 <= i < a.pending_requests@.len(),
            b.pending_requests@ == a.pending_requests@.remove(i),
            b.next_request_id == a.next_request_id,
            b.next_texture_handle == a.next_texture_handle,
            b.next_asset_id == a.next_asset_id,
            b.textures@.len() == a.textures@.len(),
            forall|j: int|
                0 <= j < a.textures@.len() ==> (#[trigger] b.textures@[j]).path@
                    == a.textures@[j].path@ && b.textures@[j].handle == a.textures@[j].handle
                    && b.textures@[j].asset_id == a.textures@[j].asset_id,
        ensures
            b.wf(),
            Self::keeps_history(a, b),
    {
        reveal(AssetServer::wf);
        reveal(AssetServer::keeps_history);
        assert forall|p: Seq<char>| a.has_path(p) implies b.has_path(p) by {
            let j = choose|j: int| 0 <= j < a.textures@.len() && #[trigger] a.textures@[j].path@ == p;
            assert(b.textures@[j].path@ == p);
        }
        assert forall|j: int, k: int|
            0 <= j < b.textures@.len() && 0 <= k < b.textures@.len() && j != k
            implies #[trigger] b.textures@[j].path@ != #[trigger] b.textures@[k].path@ by {
            assert(a.textures@[j].path@ != a.textures@[k].path@);
        }
        assert forall|j: int| 0 <= j < b.pending_requests@.len() implies {
            let req = #[trigger] b.pending_requests@[j];
            req.request_id < a.next_request_id ==> exists|k: int|
                0 <= k < a.pending_requests@.len()
                    && a.pending_requests@[k].request_id == req.request_id
                    && (a.pending_requests@[k].dispatched ==> req.dispatched)
        } by {
            if j < i {
                assert(b.pending_requests@[j] == a.pending_requests@[j]);
            } else {
                assert(b.pending_requests@[j] == a.pending_requests@[j + 1]);
            }
        }
        assert forall|j: int| 0 <= j < b.pending_requests@.len() implies #[trigger] b.pending_requests@[j].request_id
            < b.next_request_id && b.has_path(b.pending_requests@[j].path@) by {
            let k = if j < i { j } else { j + 1 };
            assert(b.pending_requests@[j] == a.pending_requests@[k]);
            assert(a.pending_requests@[k].request_id < a.next_request_id);
            assert(a.has_path(a.pending_requests@[k].path@));
        }
        assert forall|j: int, k: int| 0 <= j < k < b.pending_requests@.len()
            implies #[trigger] b.pending_requests@[j].request_id
            < #[trigger] b.pending_requests@[k].request_id by {
            let j2 = if j < i { j } else { j + 1 };
            let k2 = if k < i { k } else { k + 1 };
            assert(b.pending_requests@[j] == a.pending_requests@[j2]);
            assert(b.pending_requests@[k] == a.pending_requests@[k2]);
            assert(a.pending_requests@[j2].request_id < a.pending_requests@[k2].request_id);
        }
    }

    /// The host finished the request `request_id`, giving `asset_id`: the
    /// request leaves the queue and the texture registered under the
    /// request's own path, and no other, is resolved to `asset_id`. An
    /// unknown request id changes nothing.
    pub fn complete_request(&mut self, request_id: u32, asset_id: u32) -> (handle: Option<u32>)
        requires
            old(self).wf(),
        ensures
            final(self).wf(),
            Self::keeps_history(*old(self), *final(self)),
            handle is Some == exists|i: int|
                0 <= i < old(self).pending_requests@.len()
                    && #[trigger] old(self).pending_requests@[i].request_id == request_id,
            handle is None ==> *final(self) == *old(self),
            handle is Some ==> exists|i: int|
                0 <= i < old(self).pending_requests@.len()
                    && #[trigger] old(self).pending_requests@[i].request_id == request_id && {
                    let p = old(self).pending_requests@[i].path@;
                    &&& final(self).pending_requests@ == old(self).pending_requests@.remove(i)
                    &&& old(self).has_path(p)
                    &&& handle->0 == old(self).handle_of(p)
                },
            final(self).next_request_id == old(self).next_request_id,
            final(self).textures@.len() == old(self).textures@.len(),
            forall|j: int|
                0 <= j < old(self).textures@.len() ==> {
                    let before = #[trigger] old(self).textures@[j];
                    let after = final(self).textures@[j];
                    &&& after.path@ == before.path@
                    &&& after.handle == before.handle
                    &&& after.asset_id == before.asset_id
                    &&& after.resolved_id == if handle == Some(before.handle) {
                        Some(asset_id)
                    } else {
                        before.resolved_id
                    }
                },
    {
        let mut i: usize = 0;
        while i < self.pending_requests.len() && self.pending_requests[i].request_id != request_id
            invariant
                i <= self.pending_requests@.len(),
                forall|j: int| 0 <= j < i ==> self.pending_requests@[j].request_id != request_id,
            decreases self.pending_requests.len() - i,
        {
            i += 1;
        }
        if i == self.pending_requests.len() {
            proof {
                Self::lemma_keeps_history_refl(*self, *self);
            }
            return None;
        }
        let ghost start = *self;
        proof {
            self.lemma_wf_requests();
        }
        let t = match self.find_texture(&self.pending_requests[i].path) {
            Some(t) => t,
            None => {
                proof {
                    assert(self.pending_requests@[i as int].request_id < self.next_request_id);
                    assert(false);
                }
                return None;
            },
        };
        let _request = self.pending_requests.remove(i);
        proof {
            start.lemma_handle_of_index(t as int);
            Self::lemma_removed_request(start, *self, i as int);
        }
        self.textures[t].resolved_id = Some(asset_id);
        let handle = self.textures[t].handle;
        proof {
            start.lemma_wf_requests();
            assert forall|j: int| 0 <= j < start.textures@.len() && j != t implies start.textures@[j].handle != handle by {}
            Self::lemma_removed_request(start, *self, i as int);
            let p = start.pending_requests@[i as int].path@;
            assert(start.pending_requests@[i as int].request_id == request_id);
            assert(start.has_path(p));
            assert(handle == start.handle_of(p));
        }
        Some(handle)
    }

    /// The path registered under the handle.
    pub fn path_for_texture_handle(&self, texture_handle: u32) -> (r: Option<&str>)
        requires
            self.wf(),
        ensures
            r is Some == (1 <= texture_handle <= self.textures@.len()),
            r is Some ==> r->0@ == self.textures@[texture_handle - 1].path@,
    {
        if texture_handle >= 1 && (texture_handle as usize) <= self.textures.len() {
            Some(self.textures[texture_handle as usize - 1].path.as_str())
        } else {
            None
        }
    }

    /// The registry's own asset id for the handle.
    pub fn asset_id_for_texture_handle(&self, texture_handle: u32) -> (r: Option<u64>)
        requires
            self.wf(),
        ensures
            r == if 1 <= texture_handle <= self.textures@.len() {
                Some(texture_handle as u64)
            } else {
                None::<u64>
            },
    {
        proof {
            self.lemma_wf_requests();
            if 1 <= texture_handle <= self.textures@.len() {
                assert(self.textures@[texture_handle - 1].handle == texture_handle);
            }
        }
        if texture_handle >= 1 && (texture_handle as usize) <= self.textures.len() {
            Some(self.textures[texture_handle as usize - 1].asset_id)
        } else {
            None
        }
    }

    /// The host's asset id for the handle once a load has completed, else 0.
    pub fn texture_id_for_handle(&self, texture_handle: u32) -> (r: u32)
        requires
            self.wf(),
        ensures
            r == self.spec_texture_id(texture_handle),
    {
        if texture_handle >= 1 && (texture_handle as usize) <= self.textures.len() {
            match self.textures[texture_handle as usize - 1].resolved_id {
                Some(id) => id,
                None => 0,
            }
        } else {
            0
        }
    }

    pub open spec fn spec_texture_id(&self, texture_handle: u32) -> u32 {
        if 1 <= texture_handle <= self.textures@.len() {
            match self.textures@[texture_handle - 1].resolved_id {
                Some(id) => id,
                None => 0,
            }
        } else {
            0
        }
    }

    /// Whether the handle is registered and a load of it has completed.
    pub open spec fn spec_is_resolved(&self, texture_handle: u32) -> bool {
        1 <= texture_handle <= self.textures@.len()
            && self.textures@[texture_handle - 1].resolved_id is Some
    }

    pub fn is_resolved(&self, texture_handle: u32) -> (r: bool)
        requires
            self.wf(),
        ensures
            r == self.spec_is_resolved(texture_handle),
    {
        texture_handle >= 1 && (texture_handle as usize) <= self.textures.len()
            && self.textures[texture_handle as usize - 1].resolved_id.is_some()
    }

    /// Whether the path of the handle has a pending request.
    pub fn has_pending_request_for_texture_handle(&self, texture_handle: u32) -> (r: bool)
        requires
            self.wf(),
        ensures
            r == (1 <= texture_handle <= self.textures@.len() && self.has_pending_path(
                self.textures@[texture_handle - 1].path@,
            )),
    {
        if texture_handle >= 1 && (texture_handle as usize) <= self.textures.len() {
            self.has_pending(&self.textures[texture_handle as usize - 1].path)
        } else {
            false
        }
    }

    /// Whether a request for the path is pending.
    pub fn has_pending_request(&self, path: &str) -> (r: bool)
        ensures
            r == self.has_pending_path(path@),
    {
        let owned = path.to_owned();
        self.has_pending(&owned)
    }

    /// Whether the path of texture `i` differs from every earlier one.
    fn path_differs_from_earlier(&self, i: usize) -> (r: bool)
        requires
            i < self.textures@.len(),
        ensures
            r == forall|l: int| 0 <= l < i ==> self.textures@[l].path@ != self.textures@[i as int].path@,
    {
        let mut j: usize = 0;
        while j < i
            invariant
                i < self.textures@.len(),
                j <= i,
                forall|l: int| 0 <= l < j ==> self.textures@[l].path@ != self.textures@[i as int].path@,
            decreases i - j,
        {
            if self.textures[j].path == self.textures[i].path {
                return false;
            }
            j += 1;
        }
        true
    }

    /// Checks that the registry is a bijection between paths, handles and
    /// asset ids. It always is for a well-formed server.
    pub fn is_registry_consistent(&self) -> (r: bool)
        ensures
            r == self.registry_consistent(),
            self.wf() ==> r,
    {
        proof {
            if self.wf() {
                self.lemma_wf_requests();
            }
        }
        let n = self.textures.len();
        let mut i: usize = 0;
        while i < n
            invariant
                n == self.textures@.len(),
                i <= n,
                self.wf() ==> self.registry_consistent(),
                forall|k: int| 0 <= k < i ==> (#[trigger] self.textures@[k]).handle == k + 1,
                forall|k: int| 0 <= k < i ==> (#[trigger] self.textures@[k]).asset_id == k + 1,
                forall|k: int, l: int|
                    0 <= k < i && 0 <= l < i && k != l ==> #[trigger] self.textures@[k].path@
                        != #[trigger] self.textures@[l].path@,
            decreases n - i,
        {
            if !self.path_differs_from_earlier(i) {
                return false;
            }
            let handle = self.textures[i].handle;
            let asset_id = self.textures[i].asset_id;
            if handle as usize != i + 1 || asset_id != handle as u64 {
                return false;
            }
            proof {
                assert(handle == i + 1);
                assert(asset_id == i + 1);
                assert(self.textures@[i as int].handle == handle);
                assert(self.textures@[i as int].asset_id == asset_id);
                assert forall|k: int, l: int|
                    0 <= k < i + 1 && 0 <= l < i + 1 && k != l implies #[trigger] self.textures@[k].path@
                        != #[trigger] self.textures@[l].path@ by {
                    if k == i {
                        assert(self.textures@[l].path@ != self.textures@[i as int].path@);
                    } else if l == i {
                        assert(self.textures@[k].path@ != self.textures@[i as int].path@);
                    }
                }
            }
            i += 1;
        }
        true
    }
}


/// Loading the same new path any number of times (at least once) gives the
/// same handle every time and leaves exactly one pending request for it.
pub proof fn lemma_repeated_load_one_request(
    servers: Seq<AssetServer>,
    handles: Seq<u32>,
    p: Seq<char>,
)
    requires
        handles.len() >= 1,
        servers.len() == handles.len() + 1,
        forall|i: int|
            0 <= i < handles.len() ==> AssetServer::load_result(
                #[trigger] servers[i],
                servers[i + 1],
                p,
                handles[i],
            ),
        servers[0].wf(),
        !servers[0].has_path(p),
        servers[0].next_texture_handle < u32::MAX,
        servers[0].next_request_id < u32::MAX,
    ensures
        forall|i: int| 0 <= i < handles.len() ==> #[trigger] handles[i] == handles[0],
        handles[0] != 0,
        exists|i: int|
            0 <= i < servers.last().pending_requests@.len()
                && servers.last().pending_requests@[i].path@ == p && forall|j: int|
                0 <= j < servers.last().pending_requests@.len()
                    && #[trigger] servers.last().pending_requests@[j].path@ == p ==> j == i,
{
    let s0 = servers[0];
    let s1 = servers[1];
    assert(AssetServer::load_result(s0, s1, p, handles[0]));
    s0.lemma_unregistered_not_pending(p);
    s0.lemma_wf_counters();
    let n = s0.pending_requests@.len() as int;
    assert forall|k: int| 1 <= k < servers.len() implies #[trigger] servers[k] == s1 && (k
        < handles.len() ==> handles[k] == handles[0]) by {
        lemma_loads_keep_state(servers, handles, p, k);
    }
    assert forall|i: int| 0 <= i < handles.len() implies #[trigger] handles[i] == handles[0] by {
        if i > 0 {
            assert(servers[i] == s1);
        }
    }
    assert(servers.last() == s1);
    assert(s1.pending_requests@[n].path@ == p);
    assert forall|j: int|
        0 <= j < s1.pending_requests@.len() && #[trigger] s1.pending_requests@[j].path@ == p
        implies j == n by {
        if j < n {
            assert(s1.pending_requests@.subrange(0, n)[j] == s0.pending_requests@[j]);
        }
    }
}

proof fn lemma_loads_keep_state(servers: Seq<AssetServer>, handles: Seq<u32>, p: Seq<char>, k: int)
    requires
        handles.len() >= 1,
        servers.len() == handles.len() + 1,
        forall|i: int|
            0 <= i < handles.len() ==> AssetServer::load_result(
                #[trigger] servers[i],
                servers[i + 1],
                p,
                handles[i],
            ),
        !servers[0].has_path(p),
        servers[0].next_texture_handle < u32::MAX,
        1 <= k < servers.len(),
    ensures
        servers[k] == servers[1],
        k < handles.len() ==> handles[k] == handles[0],
    decreases k,
{
    assert(AssetServer::load_result(servers[0], servers[1], p, handles[0]));
    if k > 1 {
        lemma_loads_keep_state(servers, handles, p, k - 1);
        assert(AssetServer::load_result(servers[k - 1], servers[k], p, handles[k - 1]));
    }
    if k < handles.len() {
        assert(AssetServer::load_result(servers[k], servers[k + 1], p, handles[k]));
    }
}

/// A request dispatched by one `process` is never part of a later batch:
/// between the two calls any operations may run, all of which keep history.
pub proof fn lemma_dispatched_never_again(
    s0: AssetServer,
    s1: AssetServer,
    first: Seq<u32>,
    s2: AssetServer,
    s3: AssetServer,
    second: Seq<u32>,
)
    requires
        s0.wf(),
        AssetServer::dispatched_batch(s0, s1, first),
        AssetServer::keeps_history(s1, s2),
        AssetServer::dispatched_batch(s2, s3, second),
    ensures
        forall|k: int, l: int|
            0 <= k < first.len() && 0 <= l < second.len() ==> #[trigger] first[k]
                != #[trigger] second[l],
{
    reveal(AssetServer::keeps_history);
    s0.lemma_wf_requests();
    assert forall|k: int, l: int|
        0 <= k < first.len() && 0 <= l < second.len() implies #[trigger] first[k]
        != #[trigger] second[l] by {
        let id = first[k];
        assert(s0.awaits_dispatch(id));
        let i0 = choose|i: int|
            0 <= i < s0.pending_requests@.len() && s0.pending_requests@[i].request_id == id
                && !s0.pending_requests@[i].dispatched;
        assert(s0.pending_requests@[i0].request_id < s0.next_request_id);
        if id == second[l] {
            assert(s2.awaits_dispatch(id));
            let i2 = choose|i: int|
                0 <= i < s2.pending_requests@.len() && s2.pending_requests@[i].request_id == id
                    && !s2.pending_requests@[i].dispatched;
            let req = s2.pending_requests@[i2];
            assert(req.request_id < s1.next_request_id);
            assert(exists|j: int|
                0 <= j < s1.pending_requests@.len() && s1.pending_requests@[j].request_id
                    == s2.pending_requests@[i2].request_id && (s1.pending_requests@[j].dispatched
                    ==> s2.pending_requests@[i2].dispatched));
            let j = choose|j: int|
                0 <= j < s1.pending_requests@.len() && s1.pending_requests@[j].request_id
                    == req.request_id && (s1.pending_requests@[j].dispatched ==> req.dispatched);
            assert(s0.pending_requests@[j].request_id == s1.pending_requests@[j].request_id);
            assert(s1.pending_requests@[j].dispatched);
        }
    }
}

} // verus!
