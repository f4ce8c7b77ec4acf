//! The coordinator: owns the session registry, the project store and the
//! per-project editing-session sets, validates and applies every client
//! operation, and computes the exact recipient set of every event.
//!
//! All mutations of this state are serialized through one owner. Detached
//! pipeline work (downloading, analysis, rendering) happens outside, against
//! immutable snapshots handed out by the operations here, and its results
//! come back as further delivery orders.

use vstd::prelude::*;

use crate::data::{Project, ProjectId, Seed, Segment};
use crate::error::ServerError;
use crate::messages::{ClientId, Outgoing, ServerRequest, SessionId};
use crate::outside::random_session_id;

verus! {

/// The editing-session set of one project: the clients that joined it.
pub struct EditingEntry {
    pub name: ProjectId,
    pub members: Vec<ClientId>,
}

/// No id appears twice.
pub open spec fn ids_unique(s: Seq<usize>) -> bool {
    forall|i: int, j: int| 0 <= i < j < s.len() ==> s[i] != s[j]
}

/// Whether one of the first `n` ids of `s` is `x`.
pub open spec fn id_in_prefix(s: Seq<usize>, n: int, x: usize) -> bool {
    exists|j: int| 0 <= j < n && j < s.len() && s[j] == x
}

/// Whether the store holds a project named `name`.
pub open spec fn has_proj(ps: Seq<Project>, name: Seq<char>) -> bool {
    exists|i: int| 0 <= i < ps.len() && ps[i].name@ == name
}

/// The index of the project named `name` (meaningful when names are unique).
pub open spec fn proj_idx(ps: Seq<Project>, name: Seq<char>) -> int {
    choose|i: int| 0 <= i < ps.len() && ps[i].name@ == name
}

/// Project names are unique.
pub open spec fn projs_unique(ps: Seq<Project>) -> bool {
    forall|i: int, j: int| 0 <= i < j < ps.len() ==> ps[i].name@ != ps[j].name@
}

/// Whether an editing-session set exists for `name`.
pub open spec fn has_edit(es: Seq<EditingEntry>, name: Seq<char>) -> bool {
    exists|i: int| 0 <= i < es.len() && es[i].name@ == name
}

/// The index of the editing-session set for `name`.
pub open spec fn edit_idx(es: Seq<EditingEntry>, name: Seq<char>) -> int {
    choose|i: int| 0 <= i < es.len() && es[i].name@ == name
}

/// The members of the editing-session set for `name`.
pub open spec fn members_of(es: Seq<EditingEntry>, name: Seq<char>) -> Seq<usize> {
    es[edit_idx(es, name)].members@
}

/// Editing-set names are unique.
pub open spec fn edits_unique(es: Seq<EditingEntry>) -> bool {
    forall|i: int, j: int| 0 <= i < j < es.len() ==> es[i].name@ != es[j].name@
}

pub proof fn lemma_proj_idx(ps: Seq<Project>, i: int)
    requires
        projs_unique(ps),
        0 <= i < ps.len(),
    ensures
        has_proj(ps, ps[i].name@),
        proj_idx(ps, ps[i].name@) == i,
{
    assert(has_proj(ps, ps[i].name@));
    let j = proj_idx(ps, ps[i].name@);
    if i != j {
        assert(false);
    }
}

pub proof fn lemma_edit_idx(es: Seq<EditingEntry>, i: int)
    requires
        edits_unique(es),
        0 <= i < es.len(),
    ensures
        has_edit(es, es[i].name@),
        edit_idx(es, es[i].name@) == i,
{
    assert(has_edit(es, es[i].name@));
    let j = edit_idx(es, es[i].name@);
    if i != j {
        assert(false);
    }
}

/// Whether `x` appears in `v`.
fn contains_id(v: &Vec<usize>, x: usize) -> (r: bool)
    ensures
        r == v@.contains(x),
{
    let mut i: usize = 0;
    while i < v.len()
        invariant
            i <= v@.len(),
            forall|j: int| 0 <= j < i ==> v@[j] != x,
        decreases v@.len() - i,
    {
        if v[i] == x {
            return true;
        }
        i = i + 1;
    }
    proof {
        if v@.contains(x) {
            let w = choose|w: int| 0 <= w < v@.len() && v@[w] == x;
            assert(false);
        }
    }
    false
}

/// The ids of `v` without `x`, in order.
fn copy_except(v: &Vec<usize>, x: usize) -> (r: Vec<usize>)
    requires
        ids_unique(v@),
    ensures
        ids_unique(r@),
        forall|y: usize| r@.contains(y) <==> (v@.contains(y) && y != x),
{
    let mut r: Vec<usize> = Vec::new();
    let mut i: usize = 0;
    while i < v.len()
        invariant
            ids_unique(v@),
            i <= v@.len(),
            ids_unique(r@),
            forall|y: usize| r@.contains(y) <==> (id_in_prefix(v@, i as int, y) && y != x),
        decreases v@.len() - i,
    {
        let ghost r_prev = r@;
        let ghost i0 = i as int;
        if v[i] != x {
            r.push(v[i]);
        }
        i = i + 1;
        proof {
            assert forall|y: usize|
                r@.contains(y) <==> (id_in_prefix(v@, i as int, y) && y != x) by {
                if r@.contains(y) {
                    let w = choose|w: int| 0 <= w < r@.len() && r@[w] == y;
                    if w < r_prev.len() {
                        assert(r_prev[w] == y);
                        assert(r_prev.contains(y));
                    }
                    assert(id_in_prefix(v@, i0, y) || y == v@[i0]);
                    assert(id_in_prefix(v@, i as int, y));
                }
                if id_in_prefix(v@, i as int, y) && y != x {
                    let w = choose|w: int| 0 <= w < i && w < v@.len() && v@[w] == y;
                    if w < i0 {
                        assert(id_in_prefix(v@, i0, y));
                        assert(r_prev.contains(y));
                        let u = choose|u: int| 0 <= u < r_prev.len() && r_prev[u] == y;
                        assert(r@[u] == y);
                        assert(r@.contains(y));
                    } else {
                        assert(v@[i0] == y);
                        assert(r@[r@.len() - 1] == y);
                        assert(r@.contains(y));
                    }
                }
            }
            assert forall|a: int, b: int| 0 <= a < b < r@.len() implies r@[a] != r@[b] by {
                if b < r_prev.len() {
                } else {
                    assert(r@[b] == v@[i0]);
                    assert(r_prev.contains(r@[a]) || r@.len() - 1 == a);
                    if a < r_prev.len() {
                        assert(r_prev[a] == r@[a]);
                        assert(r_prev.contains(r@[a]));
                        assert(id_in_prefix(v@, i0, r@[a]));
                        let w = choose|w: int| 0 <= w < i0 && w < v@.len() && v@[w] == r@[a];
                        assert(v@[w] != v@[i0]);
                    }
                }
            }
        }
    }
    proof {
        assert forall|y: usize| id_in_prefix(v@, v@.len() as int, y) <==> v@.contains(y) by {
            if v@.contains(y) {
                let w = choose|w: int| 0 <= w < v@.len() && v@[w] == y;
                assert(id_in_prefix(v@, v@.len() as int, y));
            }
        }
    }
    r
}

/// The coordinator's state: who is connected, what projects exist, and who
/// is editing each of them.
pub struct SmActor {
    pub sessions: Vec<SessionId>,
    pub projects: Vec<Project>,
    pub editing_sessions: Vec<EditingEntry>,
}

impl SmActor {
    /// Sessions, project names and editing-set names are unique; every
    /// project has an editing set; every member of an editing set is a
    /// connected session.
    pub open spec fn wf(self) -> bool {
        &&& ids_unique(self.sessions@)
        &&& projs_unique(self.projects@)
        &&& edits_unique(self.editing_sessions@)
        &&& forall|i: int|
            0 <= i < self.editing_sessions@.len() ==> ids_unique(
                self.editing_sessions@[i].members@,
            )
        &&& forall|i: int|
            0 <= i < self.projects@.len() ==> has_edit(
                self.editing_sessions@,
                self.projects@[i].name@,
            )
        &&& forall|i: int, j: int|
            0 <= i < self.editing_sessions@.len() && 0 <= j
                < self.editing_sessions@[i].members@.len() ==> self.sessions@.contains(
                self.editing_sessions@[i].members@[j],
            )
    }

    pub fn new() -> (r: SmActor)
        ensures
            r.wf(),
            r.sessions@.len() == 0,
            r.projects@.len() == 0,
            r.editing_sessions@.len() == 0,
    {
        SmActor { sessions: Vec::new(), projects: Vec::new(), editing_sessions: Vec::new() }
    }

    fn find_project(&self, name: &ProjectId) -> (r: Option<usize>)
        requires
            projs_unique(self.projects@),
        ensures
            match r {
                Some(i) => i < self.projects@.len() && self.projects@[i as int].name@ == name@
                    && has_proj(self.projects@, name@) && proj_idx(self.projects@, name@)
                    == i,
                None => !has_proj(self.projects@, name@),
            },
    {
        let mut i: usize = 0;
        while i < self.projects.len()
            invariant
                projs_unique(self.projects@),
                i <= self.projects@.len(),
                forall|j: int| 0 <= j < i ==> self.projects@[j].name@ != name@,
            decreases self.projects@.len() - i,
        {
            if self.projects[i].name == *name {
                proof {
                    lemma_proj_idx(self.projects@, i as int);
                }
                return Some(i);
            }
            i = i + 1;
        }
        None
    }

    fn find_editing(&self, name: &ProjectId) -> (r: Option<usize>)
        requires
            edits_unique(self.editing_sessions@),
        ensures
            match r {
                Some(i) => i < self.editing_sessions@.len()
                    && self.editing_sessions@[i as int].name@ == name@ && has_edit(
                    self.editing_sessions@,
                    name@,
                ) && edit_idx(self.editing_sessions@, name@) == i,
                None => !has_edit(self.editing_sessions@, name@),
            },
    {
        let mut i: usize = 0;
        while i < self.editing_sessions.len()
            invariant
                edits_unique(self.editing_sessions@),
                i <= self.editing_sessions@.len(),
                forall|j: int| 0 <= j < i ==> self.editing_sessions@[j].name@ != name@,
            decreases self.editing_sessions@.len() - i,
        {
            if self.editing_sessions[i].name == *name {
                proof {
                    lemma_edit_idx(self.editing_sessions@, i as int);
                }
                return Some(i);
            }
            i = i + 1;
        }
        None
    }

    /// Registers a connection under the given id. An id already registered
    /// stays registered: the registry is a set.
    pub fn connect_with_id(&mut self, id: SessionId)
        requires
            old(self).wf(),
        ensures
            final(self).wf(),
            final(self).projects@ == old(self).projects@,
            final(self).editing_sessions@ == old(self).editing_sessions@,
            forall|x: usize|
                final(self).sessions@.contains(x) <==> (old(self).sessions@.contains(x) || x
                    == id),
    {
        let present = contains_id(&self.sessions, id);
        if !present {
            self.sessions.push(id);
            proof {
                let s_old = old(self).sessions@;
                let s_new = self.sessions@;
                let n = s_old.len() as int;
                assert forall|x: usize|
                    s_new.contains(x) <==> (s_old.contains(x) || x == id) by {
                    if s_new.contains(x) {
                        let w = choose|w: int| 0 <= w < s_new.len() && s_new[w] == x;
                        if w < n {
                            assert(s_old[w] == x);
                            assert(s_old.contains(x));
                        }
                    }
                    if s_old.contains(x) {
                        let w = choose|w: int| 0 <= w < s_old.len() && s_old[w] == x;
                        assert(s_new[w] == x);
                        assert(s_new.contains(x));
                    }
                    if x == id {
                        assert(s_new[n] == x);
                        assert(s_new.contains(x));
                    }
                }
                assert forall|a: int, b: int| 0 <= a < b < s_new.len() implies s_new[a]
                    != s_new[b] by {
                    if b == n {
                        assert(s_old[a] == s_new[a]);
                        assert(s_old.contains(s_new[a]));
                    }
                }
            }
        }
    }

    /// Allocates a fresh random session id, registers it, and returns it.
    /// Never fails; a colliding id re-registers that id and the newcomer
    /// takes over the channel.
    pub fn connect(&mut self) -> (id: SessionId)
        requires
            old(self).wf(),
        ensures
            final(self).wf(),
            final(self).projects@ == old(self).projects@,
            final(self).editing_sessions@ == old(self).editing_sessions@,
            forall|x: usize|
                final(self).sessions@.contains(x) <==> (old(self).sessions@.contains(x) || x
                    == id),
    {
        let id = random_session_id();
        self.connect_with_id(id);
        id
    }

    /// Every connected session: the recipients of a global event.
    pub fn get_all_recipients(&self) -> (r: Vec<SessionId>)
        ensures
            r@ == self.sessions@,
    {
        let mut r: Vec<SessionId> = Vec::new();
        let mut i: usize = 0;
        while i < self.sessions.len()
            invariant
                i <= self.sessions@.len(),
                r@ =~= self.sessions@.take(i as int),
            decreases self.sessions@.len() - i,
        {
            r.push(self.sessions[i]);
            i = i + 1;
        }
        proof {
            assert(r@ =~= self.sessions@);
        }
        r
    }

    /// The current editing-session set of a project: the recipients of a
    /// project-scoped event.
    pub fn get_all_cloned_recipients_project(&self, project_name: &ProjectId) -> (r: Vec<
        SessionId,
    >)
        requires
            self.wf(),
            has_edit(self.editing_sessions@, project_name@),
        ensures
            r@ == members_of(self.editing_sessions@, project_name@),
    {
        let e = self.find_editing(project_name).unwrap();
        let members = &self.editing_sessions[e].members;
        let mut r: Vec<SessionId> = Vec::new();
        let mut i: usize = 0;
        while i < members.len()
            invariant
                i <= members@.len(),
                r@ =~= members@.take(i as int),
            decreases members@.len() - i,
        {
            r.push(members[i]);
            i = i + 1;
        }
        proof {
            assert(r@ =~= members@);
        }
        r
    }

    /// The editing-session set of a project without one client: the
    /// recipients of an event that its originator must not receive.
    pub fn get_all_cloned_recipients_project_except(
        &self,
        project_name: &ProjectId,
        user: ClientId,
    ) -> (r: Vec<SessionId>)
        requires
            self.wf(),
            has_edit(self.editing_sessions@, project_name@),
        ensures
            ids_unique(r@),
            forall|x: usize|
                r@.contains(x) <==> (members_of(self.editing_sessions@, project_name@).contains(x)
                    && x != user),
    {
        let e = self.find_editing(project_name).unwrap();
        copy_except(&self.editing_sessions[e].members, user)
    }

    /// Creates a project: fails `ProjectAlreadyExists` when the name is
    /// taken, and then changes nothing. On success the store gains the new
    /// project, with no segments, and a fresh, empty editing-session set;
    /// a copy of the new project is returned for the announcement.
    pub fn create_project(
        &mut self,
        project_name: ProjectId,
        seed: Seed,
        video_urls: &[String],
    ) -> (r: Result<Project, ServerError>)
        requires
            old(self).wf(),
        ensures
            final(self).wf(),
            final(self).sessions@ == old(self).sessions@,
            r is Err <==> has_proj(old(self).projects@, project_name@),
            r matches Err(e) ==> e == ServerError::ProjectAlreadyExists && *final(self) == *old(self),
            r is Ok ==> {
                let np = final(self).projects@.last();
                &&& final(self).projects@ == old(self).projects@.push(np)
                &&& np.name@ == project_name@
                &&& np.seed@ == seed@
                &&& np.video_ids@.len() == video_urls@.len()
                &&& forall|i: int|
                    0 <= i < video_urls@.len() ==> np.video_ids@[i].id@ == video_urls@[i]@
                &&& np.segments@.len() == 0
            },
            r is Ok ==> (forall|n: Seq<char>|
                has_edit(final(self).editing_sessions@, n) <==> (has_edit(
                    old(self).editing_sessions@,
                    n,
                ) || n == project_name@)),
            r is Ok ==> members_of(final(self).editing_sessions@, project_name@).len() == 0,
            r is Ok ==> (forall|n: Seq<char>|
                (n != project_name@ && has_edit(old(self).editing_sessions@, n)) ==> members_of(
                    final(self).editing_sessions@,
                    n,
                ) == members_of(old(self).editing_sessions@, n)),
            r matches Ok(p) ==> {
                let np = final(self).projects@.last();
                p.name@ == np.name@ && p.seed@ == np.seed@ && p.video_ids@ == np.video_ids@
                    && p.segments@ == np.segments@
            },
    {
        if self.find_project(&project_name).is_some() {
            return Err(ServerError::ProjectAlreadyExists);
        }
        let project = Project::new(project_name.as_str(), seed.as_str(), video_urls);
        let copy = project.duplicate();
        self.projects.push(project);
        proof {
            let ps_old = old(self).projects@;
            let ps_new = self.projects@;
            let n = ps_old.len() as int;
            assert forall|a: int, b: int| 0 <= a < b < ps_new.len() implies ps_new[a].name@
                != ps_new[b].name@ by {
                if b == n {
                    assert(ps_new[a] == ps_old[a]);
                    assert(has_proj(ps_old, ps_new[a].name@));
                }
            }
        }
        let e_found = self.find_editing(&project_name);
        match e_found {
            Some(e) => {
                let name = self.editing_sessions[e].name.clone();
                self.editing_sessions[e] = EditingEntry { name, members: Vec::new() };
                proof {
                    let es_old = old(self).editing_sessions@;
                    let es_new = self.editing_sessions@;
                    assert(es_new.len() == es_old.len());
                    assert(es_new[e as int].name@ == project_name@);
                    assert forall|a: int|
                        0 <= a < es_new.len() && a != e as int implies es_new[a] == es_old[a] by {}
                    assert(edits_unique(es_new));
                    lemma_edit_idx(es_new, e as int);
                    assert forall|n: Seq<char>|
                        has_edit(es_new, n) <==> (has_edit(es_old, n) || n == project_name@) by {
                        if has_edit(es_new, n) {
                            let w = choose|w: int| 0 <= w < es_new.len() && es_new[w].name@ == n;
                            if w != e as int {
                                assert(es_old[w].name@ == n);
                            }
                        }
                        if has_edit(es_old, n) {
                            let w = choose|w: int| 0 <= w < es_old.len() && es_old[w].name@ == n;
                            if w != e as int {
                                assert(es_new[w].name@ == n);
                            }
                        }
                    }
                    assert forall|n: Seq<char>|
                        (n != project_name@ && has_edit(es_old, n)) implies members_of(es_new, n)
                        == members_of(es_old, n) by {
                        let w = choose|w: int| 0 <= w < es_old.len() && es_old[w].name@ == n;
                        lemma_edit_idx(es_old, w);
                        lemma_edit_idx(es_new, w);
                    }
                }
            },
            None => {
                self.editing_sessions.push(
                    EditingEntry { name: project_name, members: Vec::new() },
                );
                proof {
                    let es_old = old(self).editing_sessions@;
                    let es_new = self.editing_sessions@;
                    let n = es_old.len() as int;
                    assert forall|a: int, b: int| 0 <= a < b < es_new.len() implies es_new[a].name@
                        != es_new[b].name@ by {
                        if b == n {
                            assert(es_new[a] == es_old[a]);
                            assert(has_edit(es_old, es_new[a].name@));
                        }
                    }
                    lemma_edit_idx(es_new, n);
                    assert forall|nm: Seq<char>|
                        has_edit(es_new, nm) <==> (has_edit(es_old, nm) || nm
                            == es_new[n].name@) by {
                        if has_edit(es_new, nm) {
                            let w = choose|w: int| 0 <= w < es_new.len() && es_new[w].name@ == nm;
                            if w < n {
                                assert(es_old[w].name@ == nm);
                            }
                        }
                        if has_edit(es_old, nm) {
                            let w = choose|w: int| 0 <= w < es_old.len() && es_old[w].name@ == nm;
                            assert(es_new[w].name@ == nm);
                        }
                    }
                    assert forall|nm: Seq<char>|
                        (nm != es_new[n].name@ && has_edit(es_old, nm)) implies members_of(
                        es_new,
                        nm,
                    ) == members_of(es_old, nm) by {
                        let w = choose|w: int| 0 <= w < es_old.len() && es_old[w].name@ == nm;
                        lemma_edit_idx(es_old, w);
                        lemma_edit_idx(es_new, w);
                    }
                }
            },
        }
        proof {
            assert forall|i: int| 0 <= i < self.projects@.len() implies has_edit(
                self.editing_sessions@,
                self.projects@[i].name@,
            ) by {
                if i < old(self).projects@.len() as int {
                    assert(self.projects@[i] == old(self).projects@[i]);
                }
            }
        }
        Ok(copy)
    }

    /// Deletes a project: fails `ProjectDoesNotExist` for an unknown name,
    /// and then changes nothing. On success only the project goes; its
    /// former editing-session set stays behind, so the removal event can
    /// still reach the clients that were editing it.
    pub fn delete_project(&mut self, project_name: ProjectId) -> (r: Result<
        ServerRequest,
        ServerError,
    >)
        requires
            old(self).wf(),
        ensures
            final(self).wf(),
            final(self).sessions@ == old(self).sessions@,
            final(self).editing_sessions@ == old(self).editing_sessions@,
            r is Err <==> !has_proj(old(self).projects@, project_name@),
            r matches Err(e) ==> e == ServerError::ProjectDoesNotExist && *final(self) == *old(self),
            r is Ok ==> final(self).projects@ == old(self).projects@.remove(
                proj_idx(old(self).projects@, project_name@),
            ),
            r matches Ok(m) ==> (m matches ServerRequest::RemoveProject { name } && name@
                == project_name@),
    {
        let found = self.find_project(&project_name);
        match found {
            None => Err(ServerError::ProjectDoesNotExist),
            Some(i) => {
                self.projects.remove(i);
                proof {
                    let ps_old = old(self).projects@;
                    let ps_new = self.projects@;
                    assert forall|a: int, b: int| 0 <= a < b < ps_new.len() implies ps_new[a].name@
                        != ps_new[b].name@ by {
                        let a0: int = if a < i as int {
                            a
                        } else {
                            a + 1
                        };
                        let b0: int = if b < i as int {
                            b
                        } else {
                            b + 1
                        };
                        assert(ps_new[a] == ps_old[a0]);
                        assert(ps_new[b] == ps_old[b0]);
                    }
                    assert forall|w: int| 0 <= w < ps_new.len() implies has_edit(
                        self.editing_sessions@,
                        ps_new[w].name@,
                    ) by {
                        let w0: int = if w < i as int {
                            w
                        } else {
                            w + 1
                        };
                        assert(ps_new[w] == ps_old[w0]);
                    }
                }
                Ok(ServerRequest::RemoveProject { name: project_name })
            },
        }
    }

    /// Adds a client to a project's editing-session set. Fails
    /// `ProjectDoesNotExist` for an unknown name and
    /// `UserAlreadyJoinedProject` for a member, changing nothing either way.
    /// On success returns, in order: the membership list as it was before
    /// the join, for the joining client; the full project snapshot, for the
    /// joining client; and the join notice, for the other members.
    pub fn user_join_project(&mut self, project_name: ProjectId, user: ClientId) -> (r: Result<
        (ServerRequest, ServerRequest, ServerRequest),
        ServerError,
    >)
        requires
            old(self).wf(),
            old(self).sessions@.contains(user),
        ensures
            final(self).wf(),
            final(self).sessions@ == old(self).sessions@,
            final(self).projects@ == old(self).projects@,
            r is Err <==> (!has_proj(old(self).projects@, project_name@) || members_of(
                old(self).editing_sessions@,
                project_name@,
            ).contains(user)),
            r matches Err(e) ==> *final(self) == *old(self) && e == (
            if !has_proj(old(self).projects@, project_name@) {
                ServerError::ProjectDoesNotExist
            } else {
                ServerError::UserAlreadyJoinedProject
            }),
            r is Ok ==> members_of(final(self).editing_sessions@, project_name@) == members_of(
                old(self).editing_sessions@,
                project_name@,
            ).push(user),
            r is Ok ==> (forall|n: Seq<char>|
                has_edit(final(self).editing_sessions@, n) <==> has_edit(
                    old(self).editing_sessions@,
                    n,
                )),
            r is Ok ==> (forall|n: Seq<char>|
                (n != project_name@ && has_edit(old(self).editing_sessions@, n)) ==> members_of(
                    final(self).editing_sessions@,
                    n,
                ) == members_of(old(self).editing_sessions@, n)),
            r matches Ok(msgs) ==> ({
                let p = old(self).projects@[proj_idx(old(self).projects@, project_name@)];
                &&& msgs.0 matches ServerRequest::JoinedUsers { users } && users@ == members_of(
                    old(self).editing_sessions@,
                    project_name@,
                )
                &&& msgs.1 matches ServerRequest::ChangeProject { seed, video_urls, name, segments }
                    && seed@ == p.seed@ && video_urls@ == p.video_ids@ && name@ == p.name@
                    && segments@ == p.segments@
                &&& msgs.2 matches ServerRequest::UserJoinedProject { user: u } && u == user
            }),
    {
        let p = match self.find_project(&project_name) {
            Some(p) => p,
            None => {
                return Err(ServerError::ProjectDoesNotExist);
            },
        };
        let e = self.find_editing(&project_name).unwrap();
        if contains_id(&self.editing_sessions[e].members, user) {
            return Err(ServerError::UserAlreadyJoinedProject);
        }
        let users = copy_ids(&self.editing_sessions[e].members);
        let mut members = copy_ids(&self.editing_sessions[e].members);
        members.push(user);
        let name = self.editing_sessions[e].name.clone();
        self.editing_sessions[e] = EditingEntry { name, members };
        proof {
            let es_old = old(self).editing_sessions@;
            let es_new = self.editing_sessions@;
            assert(es_new.len() == es_old.len());
            assert forall|w: int| 0 <= w < es_new.len() implies es_new[w].name@
                == es_old[w].name@ by {}
            assert(edits_unique(es_new));
            lemma_edit_idx(es_old, e as int);
            lemma_edit_idx(es_new, e as int);
            assert forall|n: Seq<char>| has_edit(es_new, n) <==> has_edit(es_old, n) by {
                if has_edit(es_new, n) {
                    let w = choose|w: int| 0 <= w < es_new.len() && es_new[w].name@ == n;
                    assert(es_old[w].name@ == n);
                }
                if has_edit(es_old, n) {
                    let w = choose|w: int| 0 <= w < es_old.len() && es_old[w].name@ == n;
                    assert(es_new[w].name@ == n);
                }
            }
            assert forall|n: Seq<char>|
                (n != project_name@ && has_edit(es_old, n)) implies members_of(es_new, n)
                == members_of(es_old, n) by {
                let w = choose|w: int| 0 <= w < es_old.len() && es_old[w].name@ == n;
                lemma_edit_idx(es_old, w);
                lemma_edit_idx(es_new, w);
            }
            assert(members_of(es_new, project_name@) =~= members_of(
                es_old,
                project_name@,
            ).push(user));
            assert forall|a: int, b: int|
                0 <= a < b < es_new[e as int].members@.len() implies es_new[e as int].members@[a]
                != es_new[e as int].members@[b] by {
                let m_old = es_old[e as int].members@;
                if b == m_old.len() as int {
                    assert(es_new[e as int].members@[a] == m_old[a]);
                    assert(m_old.contains(m_old[a]));
                }
            }
        }
        let proj = &self.projects[p];
        let mut video_urls: Vec<crate::data::YoutubeId> = Vec::new();
        let mut i: usize = 0;
        while i < proj.video_ids.len()
            invariant
                i <= proj.video_ids@.len(),
                video_urls@ =~= proj.video_ids@.take(i as int),
            decreases proj.video_ids@.len() - i,
        {
            video_urls.push(proj.video_ids[i].duplicate());
            i = i + 1;
        }
        let mut segments: Vec<Segment> = Vec::new();
        let mut j: usize = 0;
        while j < proj.segments.len()
            invariant
                j <= proj.segments@.len(),
                segments@ =~= proj.segments@.take(j as int),
            decreases proj.segments@.len() - j,
        {
            segments.push(proj.segments[j].duplicate());
            j = j + 1;
        }
        proof {
            assert(video_urls@ =~= proj.video_ids@);
            assert(segments@ =~= proj.segments@);
        }
        let change = ServerRequest::ChangeProject {
            seed: proj.seed.clone(),
            video_urls,
            name: proj.name.clone(),
            segments,
        };
        Ok(
            (
                ServerRequest::JoinedUsers { users },
                change,
                ServerRequest::UserJoinedProject { user },
            ),
        )
    }

    /// Finds the project and validates a segment position against its
    /// current segment count: insertion admits the count itself, every
    /// other operation requires a strictly smaller index.
    fn locate_segment(&self, project_name: &ProjectId, position: u16, insert_mode: bool) -> (r:
        Result<usize, ServerError>)
        requires
            projs_unique(self.projects@),
        ensures
            match r {
                Ok(pi) => has_proj(self.projects@, project_name@) && pi == proj_idx(
                    self.projects@,
                    project_name@,
                ) && pi < self.projects@.len() && (if insert_mode {
                    (position as int) <= self.projects@[pi as int].segments@.len()
                } else {
                    (position as int) < self.projects@[pi as int].segments@.len()
                }),
                Err(e) => (e == ServerError::ProjectDoesNotExist && !has_proj(
                    self.projects@,
                    project_name@,
                )) || (e == ServerError::SegmentOutOfBounds && has_proj(
                    self.projects@,
                    project_name@,
                ) && (if insert_mode {
                    position as int > members_len(self.projects@, project_name@)
                } else {
                    position as int >= members_len(self.projects@, project_name@)
                })),
            },
    {
        let pi = match self.find_project(project_name) {
            Some(pi) => pi,
            None => {
                return Err(ServerError::ProjectDoesNotExist);
            },
        };
        let len = self.projects[pi].segments.len();
        let pos = position as usize;
        if insert_mode {
            if pos > len {
                return Err(ServerError::SegmentOutOfBounds);
            }
        } else {
            if pos >= len {
                return Err(ServerError::SegmentOutOfBounds);
            }
        }
        Ok(pi)
    }

    /// Inserts a segment at `position` (the current count appends). Fails
    /// `ProjectDoesNotExist` for an unknown name and `SegmentOutOfBounds`
    /// above the count, changing nothing either way. On success the project
    /// gains exactly one segment, at `position`, with the given sentence
    /// and the first interpretation chosen; every later segment shifts one
    /// position up; the returned event reports the insertion row.
    pub fn add_segment(
        &mut self,
        project_name: ProjectId,
        position: u16,
        sentence: String,
    ) -> (r: Result<ServerRequest, ServerError>)
        requires
            old(self).wf(),
        ensures
            final(self).wf(),
            final(self).sessions@ == old(self).sessions@,
            final(self).editing_sessions@ == old(self).editing_sessions@,
            r is Err <==> (!has_proj(old(self).projects@, project_name@) || position as int
                > members_len(old(self).projects@, project_name@)),
            r matches Err(e) ==> *final(self) == *old(self) && e == (
            if !has_proj(old(self).projects@, project_name@) {
                ServerError::ProjectDoesNotExist
            } else {
                ServerError::SegmentOutOfBounds
            }),
            r is Ok ==> ({
                let pi = proj_idx(old(self).projects@, project_name@);
                let p_old = old(self).projects@[pi];
                let p_new = final(self).projects@[pi];
                let seg = p_new.segments@[position as int];
                &&& final(self).projects@.len() == old(self).projects@.len()
                &&& forall|j: int|
                    0 <= j < old(self).projects@.len() && j != pi ==> final(self).projects@[j]
                        == old(self).projects@[j]
                &&& p_new.name == p_old.name
                &&& p_new.seed == p_old.seed
                &&& p_new.video_ids@ == p_old.video_ids@
                &&& p_new.segments@ == p_old.segments@.insert(position as int, seg)
                &&& p_new.segments@.len() == p_old.segments@.len() + 1
                &&& seg.sentence@ == sentence@
                &&& seg.combo_index == 0
            }),
            r matches Ok(m) ==> (m matches ServerRequest::NewSegment { segment, row }
                && segment.sentence@ == sentence@ && segment.combo_index == 0 && row == position
                as usize),
    {
        let pi = match self.locate_segment(&project_name, position, true) {
            Ok(pi) => pi,
            Err(e) => {
                return Err(e);
            },
        };
        let segment = Segment::new(sentence.as_str());
        let copy = segment.duplicate();
        let ghost pre = *self;
        self.projects[pi].segments.insert(position as usize, segment);
        proof {
            lemma_wf_after_project_update(pre, *self, pi as int);
            pre.projects@[pi as int].segments@.insert_ensures(position as int, copy);
        }
        Ok(ServerRequest::NewSegment { segment: copy, row: position as usize })
    }

    /// Rewrites the sentence of the segment at `position`. Fails
    /// `ProjectDoesNotExist` for an unknown name and `SegmentOutOfBounds`
    /// from the count upward, changing nothing either way. On success only
    /// that segment's sentence changes; its chosen interpretation and every
    /// other segment stay; the returned event reports the row and the text.
    pub fn modify_segment_sentence(
        &mut self,
        project_name: ProjectId,
        segment_position: u16,
        sentence: String,
    ) -> (r: Result<ServerRequest, ServerError>)
        requires
            old(self).wf(),
        ensures
            final(self).wf(),
            final(self).sessions@ == old(self).sessions@,
            final(self).editing_sessions@ == old(self).editing_sessions@,
            r is Err <==> (!has_proj(old(self).projects@, project_name@) || segment_position as int
                >= members_len(old(self).projects@, project_name@)),
            r matches Err(e) ==> *final(self) == *old(self) && e == (
            if !has_proj(old(self).projects@, project_name@) {
                ServerError::ProjectDoesNotExist
            } else {
                ServerError::SegmentOutOfBounds
            }),
            r is Ok ==> ({
                let pi = proj_idx(old(self).projects@, project_name@);
                let p_old = old(self).projects@[pi];
                let p_new = final(self).projects@[pi];
                let seg = p_new.segments@[segment_position as int];
                &&& final(self).projects@.len() == old(self).projects@.len()
                &&& forall|j: int|
                    0 <= j < old(self).projects@.len() && j != pi ==> final(self).projects@[j]
                        == old(self).projects@[j]
                &&& p_new.name == p_old.name
                &&& p_new.seed == p_old.seed
                &&& p_new.video_ids@ == p_old.video_ids@
                &&& p_new.segments@ == p_old.segments@.update(segment_position as int, seg)
                &&& seg.sentence@ == sentence@
                &&& seg.combo_index == p_old.segments@[segment_position as int].combo_index
            }),
            r matches Ok(m) ==> (m matches ServerRequest::ChangeSentence { row, sentence: s }
                && s@ == sentence@ && row == segment_position as usize),
    {
        let pi = match self.locate_segment(&project_name, segment_position, false) {
            Ok(pi) => pi,
            Err(e) => {
                return Err(e);
            },
        };
        let combo_index = self.projects[pi].segments[segment_position as usize].combo_index;
        let seg = Segment { sentence: sentence.clone(), combo_index };
        let ghost pre = *self;
        self.projects[pi].segments[segment_position as usize] = seg;
        proof {
            lemma_wf_after_project_update(pre, *self, pi as int);
        }
        Ok(ServerRequest::ChangeSentence { row: segment_position as usize, sentence })
    }

    /// Rewrites the chosen interpretation index of the segment at
    /// `position`, under the same validation as a sentence change. On
    /// success only that segment's index changes; the returned event
    /// reports the row and the new index.
    pub fn modify_segment_combo_index(
        &mut self,
        project_name: ProjectId,
        segment_position: u16,
        index: u16,
    ) -> (r: Result<ServerRequest, ServerError>)
        requires
            old(self).wf(),
        ensures
            final(self).wf(),
            final(self).sessions@ == old(self).sessions@,
            final(self).editing_sessions@ == old(self).editing_sessions@,
            r is Err <==> (!has_proj(old(self).projects@, project_name@) || segment_position as int
                >= members_len(old(self).projects@, project_name@)),
            r matches Err(e) ==> *final(self) == *old(self) && e == (
            if !has_proj(old(self).projects@, project_name@) {
                ServerError::ProjectDoesNotExist
            } else {
                ServerError::SegmentOutOfBounds
            }),
            r is Ok ==> ({
                let pi = proj_idx(old(self).projects@, project_name@);
                let p_old = old(self).projects@[pi];
                let p_new = final(self).projects@[pi];
                let seg = p_new.segments@[segment_position as int];
                &&& final(self).projects@.len() == old(self).projects@.len()
                &&& forall|j: int|
                    0 <= j < old(self).projects@.len() && j != pi ==> final(self).projects@[j]
                        == old(self).projects@[j]
                &&& p_new.name == p_old.name
                &&& p_new.seed == p_old.seed
                &&& p_new.video_ids@ == p_old.video_ids@
                &&& p_new.segments@ == p_old.segments@.update(segment_position as int, seg)
                &&& seg.sentence@ == p_old.segments@[segment_position as int].sentence@
                &&& seg.combo_index == index
            }),
            r matches Ok(m) ==> (m matches ServerRequest::ChangeComboIndex { row, combo_index }
                && combo_index == index && row == segment_position as usize),
    {
        let pi = match self.locate_segment(&project_name, segment_position, false) {
            Ok(pi) => pi,
            Err(e) => {
                return Err(e);
            },
        };
        let sentence = self.projects[pi].segments[segment_position as usize].sentence.clone();
        let seg = Segment { sentence, combo_index: index };
        let ghost pre = *self;
        self.projects[pi].segments[segment_position as usize] = seg;
        proof {
            lemma_wf_after_project_update(pre, *self, pi as int);
        }
        Ok(ServerRequest::ChangeComboIndex { row: segment_position as usize, combo_index: index })
    }

    /// Removes the segment at `position`, under the same validation as a
    /// modification. On success the project loses exactly that segment and
    /// every later one shifts one position down; the returned event reports
    /// the removal row. No pipeline follows a removal.
    pub fn remove_segment(&mut self, project_name: ProjectId, segment_position: u16) -> (r: Result<
        ServerRequest,
        ServerError,
    >)
        requires
            old(self).wf(),
        ensures
            final(self).wf(),
            final(self).sessions@ == old(self).sessions@,
            final(self).editing_sessions@ == old(self).editing_sessions@,
            r is Err <==> (!has_proj(old(self).projects@, project_name@) || segment_position as int
                >= members_len(old(self).projects@, project_name@)),
            r matches Err(e) ==> *final(self) == *old(self) && e == (
            if !has_proj(old(self).projects@, project_name@) {
                ServerError::ProjectDoesNotExist
            } else {
                ServerError::SegmentOutOfBounds
            }),
            r is Ok ==> ({
                let pi = proj_idx(old(self).projects@, project_name@);
                let p_old = old(self).projects@[pi];
                let p_new = final(self).projects@[pi];
                &&& final(self).projects@.len() == old(self).projects@.len()
                &&& forall|j: int|
                    0 <= j < old(self).projects@.len() && j != pi ==> final(self).projects@[j]
                        == old(self).projects@[j]
                &&& p_new.name == p_old.name
                &&& p_new.seed == p_old.seed
                &&& p_new.video_ids@ == p_old.video_ids@
                &&& p_new.segments@ == p_old.segments@.remove(segment_position as int)
            }),
            r matches Ok(m) ==> (m matches ServerRequest::RemoveSegment { row } && row
                == segment_position as usize),
    {
        let pi = match self.locate_segment(&project_name, segment_position, false) {
            Ok(pi) => pi,
            Err(e) => {
                return Err(e);
            },
        };
        let ghost pre = *self;
        self.projects[pi].segments.remove(segment_position as usize);
        proof {
            lemma_wf_after_project_update(pre, *self, pi as int);
        }
        Ok(ServerRequest::RemoveSegment { row: segment_position as usize })
    }

    /// Removes a session: the client leaves every project's editing-session
    /// set and the registry, as one step. The returned order carries the
    /// departure notice to the union of the remaining members of every
    /// project the client had joined — and so never to the client itself:
    /// a later broadcast to any project cannot reach the departed session.
    pub fn disconnect(&mut self, id: SessionId) -> (r: Outgoing)
        requires
            old(self).wf(),
        ensures
            final(self).wf(),
            final(self).projects@ == old(self).projects@,
            !final(self).sessions@.contains(id),
            forall|x: usize|
                final(self).sessions@.contains(x) <==> (old(self).sessions@.contains(x) && x
                    != id),
            final(self).editing_sessions@.len() == old(self).editing_sessions@.len(),
            forall|i: int|
                0 <= i < old(self).editing_sessions@.len()
                    ==> final(self).editing_sessions@[i].name@
                    == old(self).editing_sessions@[i].name@,
            forall|i: int, x: usize|
                0 <= i < old(self).editing_sessions@.len()
                    ==> (final(self).editing_sessions@[i].members@.contains(x)
                    <==> (old(self).editing_sessions@[i].members@.contains(x) && x != id)),
            ids_unique(r.targets@),
            !r.targets@.contains(id),
            forall|x: usize|
                r.targets@.contains(x) <==> (x != id && exists|i: int|
                    0 <= i < old(self).editing_sessions@.len()
                        && old(self).editing_sessions@[i].members@.contains(id)
                        && old(self).editing_sessions@[i].members@.contains(x)),
            r.message matches ServerRequest::UserLeftProject { user } && user == id,
    {
        let ghost es_old = self.editing_sessions@;
        let mut targets: Vec<SessionId> = Vec::new();
        let mut e: usize = 0;
        while e < self.editing_sessions.len()
            invariant
                self.wf(),
                e <= self.editing_sessions@.len(),
                self.sessions@ == old(self).sessions@,
                self.projects@ == old(self).projects@,
                es_old == old(self).editing_sessions@,
                self.editing_sessions@.len() == es_old.len(),
                forall|i: int|
                    0 <= i < es_old.len() ==> self.editing_sessions@[i].name@ == es_old[i].name@,
                forall|i: int| e <= i < es_old.len() ==> self.editing_sessions@[i] == es_old[i],
                forall|i: int, x: usize|
                    0 <= i < e ==> (self.editing_sessions@[i].members@.contains(x) <==> (
                    es_old[i].members@.contains(x) && x != id)),
                ids_unique(targets@),
                forall|x: usize|
                    targets@.contains(x) <==> (x != id && exists|i: int|
                        0 <= i < e && es_old[i].members@.contains(id)
                            && es_old[i].members@.contains(x)),
            decreases self.editing_sessions@.len() - e,
        {
            let ghost t_prev = targets@;
            let ghost e0 = e as int;
            let ghost es_mid = self.editing_sessions@;
            proof {
                assert(es_mid[e0] == es_old[e0]);
            }
            let had = contains_id(&self.editing_sessions[e].members, id);
            let filtered = copy_except(&self.editing_sessions[e].members, id);
            if had {
                let mut j: usize = 0;
                while j < filtered.len()
                    invariant
                        ids_unique(filtered@),
                        j <= filtered@.len(),
                        ids_unique(targets@),
                        forall|x: usize|
                            targets@.contains(x) <==> (t_prev.contains(x) || id_in_prefix(
                                filtered@,
                                j as int,
                                x,
                            )),
                    decreases filtered@.len() - j,
                {
                    let ghost t_inner = targets@;
                    let ghost j0 = j as int;
                    let x = filtered[j];
                    let present = contains_id(&targets, x);
                    if !present {
                        targets.push(x);
                        proof {
                            let n = t_inner.len() as int;
                            assert forall|a: int, b: int|
                                0 <= a < b < targets@.len() implies targets@[a] != targets@[b] by {
                                if b == n {
                                    assert(targets@[a] == t_inner[a]);
                                    assert(t_inner.contains(t_inner[a]));
                                }
                            }
                        }
                    }
                    j = j + 1;
                    proof {
                        assert forall|y: usize|
                            targets@.contains(y) <==> (t_inner.contains(y) || y
                                == filtered@[j0]) by {
                            if present {
                                assert(targets@ == t_inner);
                                assert(t_inner.contains(filtered@[j0]));
                            } else {
                                if targets@.contains(y) {
                                    let w = choose|w: int|
                                        0 <= w < targets@.len() && targets@[w] == y;
                                    if w < t_inner.len() {
                                        assert(t_inner[w] == y);
                                        assert(t_inner.contains(y));
                                    }
                                }
                                if t_inner.contains(y) {
                                    let w = choose|w: int|
                                        0 <= w < t_inner.len() && t_inner[w] == y;
                                    assert(targets@[w] == y);
                                    assert(targets@.contains(y));
                                }
                                if y == filtered@[j0] {
                                    assert(targets@[targets@.len() - 1] == y);
                                    assert(targets@.contains(y));
                                }
                            }
                        }
                        assert forall|x: usize|
                            targets@.contains(x) <==> (t_prev.contains(x) || id_in_prefix(
                                filtered@,
                                j as int,
                                x,
                            )) by {
                            assert(t_inner.contains(x) <==> (t_prev.contains(x) || id_in_prefix(
                                filtered@,
                                j0,
                                x,
                            )));
                            assert(targets@.contains(x) <==> (t_inner.contains(x) || x
                                == filtered@[j0]));
                            assert(id_in_prefix(filtered@, j0 + 1, x) <==> (id_in_prefix(
                                filtered@,
                                j0,
                                x,
                            ) || x == filtered@[j0])) by {
                                if id_in_prefix(filtered@, j0 + 1, x) {
                                    let w = choose|w: int|
                                        0 <= w < j0 + 1 && w < filtered@.len() && filtered@[w]
                                            == x;
                                    if w < j0 {
                                        assert(id_in_prefix(filtered@, j0, x));
                                    }
                                }
                                if id_in_prefix(filtered@, j0, x) {
                                    let w = choose|w: int|
                                        0 <= w < j0 && w < filtered@.len() && filtered@[w] == x;
                                    assert(0 <= w < j0 + 1 && w < filtered@.len() && filtered@[w]
                                        == x);
                                }
                                if x == filtered@[j0] {
                                    assert(0 <= j0 < j0 + 1 && j0 < filtered@.len()
                                        && filtered@[j0] == x);
                                }
                            }
                        }
                    }
                }
                proof {
                    assert(j as int == filtered@.len() as int);
                    assert forall|x: usize|
                        targets@.contains(x) <==> (t_prev.contains(x) || filtered@.contains(
                        x,
                    )) by {
                        assert(targets@.contains(x) <==> (t_prev.contains(x) || id_in_prefix(
                            filtered@,
                            j as int,
                            x,
                        )));
                        if filtered@.contains(x) {
                            let w = choose|w: int| 0 <= w < filtered@.len() && filtered@[w] == x;
                            assert(id_in_prefix(filtered@, j as int, x));
                        }
                    }
                }
            }
            proof {
                assert forall|x: usize|
                    targets@.contains(x) <==> (t_prev.contains(x) || (had && filtered@.contains(
                        x,
                    ))) by {
                    if had {
                        assert(targets@.contains(x) <==> (t_prev.contains(x) || filtered@.contains(
                            x,
                        )));
                    } else {
                        assert(targets@ == t_prev);
                    }
                }
            }
            let name = self.editing_sessions[e].name.clone();
            self.editing_sessions[e] = EditingEntry { name, members: filtered };
            e = e + 1;
            proof {
                let es_new = self.editing_sessions@;
                assert(es_new.len() == es_old.len());
                assert forall|i: int| 0 <= i < es_old.len() && i != e0 implies es_new[i]
                    == es_mid[i] by {}
                assert forall|i: int| 0 <= i < es_old.len() implies es_new[i].name@
                    == es_old[i].name@ by {
                    if i != e0 {
                        assert(es_new[i] == es_mid[i]);
                    }
                }
                assert(edits_unique(es_new));
                assert forall|i: int| 0 <= i < es_new.len() implies ids_unique(
                    es_new[i].members@,
                ) by {
                    if i != e0 {
                        assert(es_new[i] == es_mid[i]);
                    }
                }
                assert forall|i: int, j: int|
                    0 <= i < es_new.len() && 0 <= j < es_new[i].members@.len() implies
                    self.sessions@.contains(es_new[i].members@[j]) by {
                    let x = es_new[i].members@[j];
                    assert(es_new[i].members@.contains(x));
                    if i == e0 {
                        assert(filtered@.contains(x));
                        assert(es_old[e0].members@.contains(x));
                        let w = choose|w: int|
                            0 <= w < es_mid[e0].members@.len() && es_mid[e0].members@[w] == x;
                        assert(self.sessions@.contains(es_mid[e0].members@[w]));
                    } else {
                        assert(es_new[i] == es_mid[i]);
                        assert(self.sessions@.contains(es_mid[i].members@[j]));
                    }
                }
                assert forall|i: int, x: usize|
                    0 <= i < e implies (es_new[i].members@.contains(x) <==> (
                    es_old[i].members@.contains(x) && x != id)) by {
                    if i != e0 {
                        assert(es_new[i] == es_mid[i]);
                        assert(es_mid[i].members@.contains(x) <==> (es_old[i].members@.contains(x)
                            && x != id));
                    } else {
                        assert(es_new[e0].members@ == filtered@);
                        assert(filtered@.contains(x) <==> (es_mid[e0].members@.contains(x) && x
                            != id));
                        assert(es_mid[e0].members@ == es_old[e0].members@);
                    }
                }
                assert forall|x: usize|
                    targets@.contains(x) <==> (x != id && exists|i: int|
                        0 <= i < e && es_old[i].members@.contains(id)
                            && es_old[i].members@.contains(x)) by {
                    assert(targets@.contains(x) <==> (t_prev.contains(x) || (had
                        && filtered@.contains(x))));
                    assert(t_prev.contains(x) <==> (x != id && exists|i: int|
                        0 <= i < e0 && es_old[i].members@.contains(id)
                            && es_old[i].members@.contains(x)));
                    if had {
                        assert(es_old[e0].members@.contains(id));
                        if targets@.contains(x) {
                            assert(t_prev.contains(x) || filtered@.contains(x));
                            if t_prev.contains(x) {
                                let w = choose|w: int|
                                    0 <= w < e0 && es_old[w].members@.contains(id)
                                        && es_old[w].members@.contains(x);
                                assert(0 <= w < e && es_old[w].members@.contains(id)
                                    && es_old[w].members@.contains(x));
                            } else {
                                assert(es_old[e0].members@.contains(x) && x != id);
                            }
                        }
                        if x != id && exists|i: int|
                            0 <= i < e && es_old[i].members@.contains(id)
                                && es_old[i].members@.contains(x) {
                            let w = choose|w: int|
                                0 <= w < e && es_old[w].members@.contains(id)
                                    && es_old[w].members@.contains(x);
                            if w < e0 {
                                assert(t_prev.contains(x));
                            } else {
                                assert(w == e0);
                                assert(filtered@.contains(x));
                            }
                            assert(targets@.contains(x));
                        }
                    } else {
                        assert(targets@ == t_prev);
                        assert(!es_old[e0].members@.contains(id));
                        if x != id && exists|i: int|
                            0 <= i < e && es_old[i].members@.contains(id)
                                && es_old[i].members@.contains(x) {
                            let w = choose|w: int|
                                0 <= w < e && es_old[w].members@.contains(id)
                                    && es_old[w].members@.contains(x);
                            assert(w != e0);
                            assert(0 <= w < e0 && es_old[w].members@.contains(id)
                                && es_old[w].members@.contains(x));
                        }
                        if t_prev.contains(x) {
                            let w = choose|w: int|
                                0 <= w < e0 && es_old[w].members@.contains(id)
                                    && es_old[w].members@.contains(x);
                            assert(0 <= w < e && es_old[w].members@.contains(id)
                                && es_old[w].members@.contains(x));
                        }
                    }
                }
            }
        }
        remove_id(&mut self.sessions, id);
        proof {
            assert forall|i: int, j: int|
                0 <= i < self.editing_sessions@.len() && 0 <= j
                    < self.editing_sessions@[i].members@.len() implies self.sessions@.contains(
                self.editing_sessions@[i].members@[j],
            ) by {
                let x = self.editing_sessions@[i].members@[j];
                assert(self.editing_sessions@[i].members@.contains(x));
                assert(es_old[i].members@.contains(x) && x != id);
            }
        }
        Outgoing { targets, message: ServerRequest::UserLeftProject { user: id } }
    }

    /// A by-value snapshot of every project, for the listing view.
    /// Never fails.
    pub fn list_projects(&self) -> (r: ServerRequest)
        ensures
            r matches ServerRequest::ChangeListProjects { projects } && projects@.len()
                == self.projects@.len() && (forall|i: int|
                0 <= i < self.projects@.len() ==> project_like(
                    #[trigger] projects@[i],
                    self.projects@[i],
                )),
    {
        let mut projects: Vec<Project> = Vec::new();
        let mut i: usize = 0;
        while i < self.projects.len()
            invariant
                i <= self.projects@.len(),
                projects@.len() == i,
                forall|j: int|
                    0 <= j < i ==> project_like(#[trigger] projects@[j], self.projects@[j]),
            decreases self.projects@.len() - i,
        {
            projects.push(self.projects[i].duplicate());
            i = i + 1;
        }
        ServerRequest::ChangeListProjects { projects }
    }

    /// The whole CreateProject operation: validates and creates the project,
    /// auto-joins the creator, and reports every delivery the transport owes
    /// — the creation event for every connected session, then the private
    /// join pair for the creator — plus the batch of video ids the
    /// downloader must be asked to fetch.
    pub fn handle_create_project(
        &mut self,
        id: ClientId,
        project_name: ProjectId,
        seed: Seed,
        urls: &[String],
    ) -> (r: Result<CreateProjectEffects, ServerError>)
        requires
            old(self).wf(),
            old(self).sessions@.contains(id),
        ensures
            final(self).wf(),
            final(self).sessions@ == old(self).sessions@,
            r is Err <==> has_proj(old(self).projects@, project_name@),
            r matches Err(e) ==> e == ServerError::ProjectAlreadyExists && *final(self) == *old(
                self,
            ),
            r is Ok ==> ({
                let np = final(self).projects@.last();
                &&& final(self).projects@ == old(self).projects@.push(np)
                &&& np.name@ == project_name@
                &&& np.seed@ == seed@
                &&& np.video_ids@.len() == urls@.len()
                &&& forall|i: int| 0 <= i < urls@.len() ==> np.video_ids@[i].id@ == urls@[i]@
                &&& np.segments@.len() == 0
                &&& members_of(final(self).editing_sessions@, project_name@) =~= seq![id]
            }),
            r matches Ok(eff) ==> ({
                let np = final(self).projects@.last();
                &&& eff.messages@.len() == 4
                &&& eff.messages@[0].targets@ == old(self).sessions@
                &&& eff.messages@[0].message matches ServerRequest::NewProject { project }
                    && project_like(project, np)
                &&& eff.messages@[1].targets@ =~= seq![id]
                &&& eff.messages@[1].message matches ServerRequest::JoinedUsers { users }
                    && users@.len() == 0
                &&& eff.messages@[2].targets@ =~= seq![id]
                &&& eff.messages@[2].message matches ServerRequest::ChangeProject {
                    seed: s,
                    video_urls,
                    name,
                    segments,
                } && s@ == seed@ && video_urls@ == np.video_ids@ && name@ == project_name@
                    && segments@.len() == 0
                &&& eff.messages@[3].targets@.len() == 0
                &&& eff.messages@[3].message matches ServerRequest::UserJoinedProject { user }
                    && user == id
                &&& eff.download@ == np.video_ids@
            }),
    {
        let all_recipients = self.get_all_recipients();
        let project = match self.create_project(project_name.clone(), seed, urls) {
            Ok(p) => p,
            Err(e) => {
                return Err(e);
            },
        };
        let mut download: Vec<crate::data::YoutubeId> = Vec::new();
        let pn = self.find_project(&project_name).unwrap();
        let np = &self.projects[pn];
        let mut i: usize = 0;
        while i < np.video_ids.len()
            invariant
                i <= np.video_ids@.len(),
                download@ =~= np.video_ids@.take(i as int),
            decreases np.video_ids@.len() - i,
        {
            download.push(np.video_ids[i].duplicate());
            i = i + 1;
        }
        proof {
            assert(download@ =~= np.video_ids@);
            lemma_proj_idx(self.projects@, pn as int);
        }
        let (joined_users, change_project, notify_join) = match self.user_join_project(
            project_name.clone(),
            id,
        ) {
            Ok(msgs) => msgs,
            Err(_) => {
                proof {
                    assert(false);
                }
                return Err(ServerError::CommunicationError);
            },
        };
        let others = self.get_all_cloned_recipients_project_except(&project_name, id);
        proof {
            assert forall|x: usize| !others@.contains(x) by {}
            assert(others@.len() == 0) by {
                if others@.len() > 0 {
                    assert(others@.contains(others@[0]));
                }
            }
        }
        let mut me: Vec<SessionId> = Vec::new();
        me.push(id);
        let mut me2: Vec<SessionId> = Vec::new();
        me2.push(id);
        let mut messages: Vec<Outgoing> = Vec::new();
        messages.push(
            Outgoing {
                targets: all_recipients,
                message: ServerRequest::NewProject { project },
            },
        );
        messages.push(Outgoing { targets: me, message: joined_users });
        messages.push(Outgoing { targets: me2, message: change_project });
        messages.push(Outgoing { targets: others, message: notify_join });
        Ok(CreateProjectEffects { messages, download })
    }

    /// The whole DeleteProject operation: removes the project and reports
    /// the removal event, addressed to the project's former editing-session
    /// set.
    pub fn handle_delete_project(&mut self, project_name: ProjectId) -> (r: Result<
        Outgoing,
        ServerError,
    >)
        requires
            old(self).wf(),
        ensures
            final(self).wf(),
            final(self).sessions@ == old(self).sessions@,
            final(self).editing_sessions@ == old(self).editing_sessions@,
            r is Err <==> !has_proj(old(self).projects@, project_name@),
            r matches Err(e) ==> e == ServerError::ProjectDoesNotExist && *final(self) == *old(
                self,
            ),
            r is Ok ==> final(self).projects@ == old(self).projects@.remove(
                proj_idx(old(self).projects@, project_name@),
            ),
            r matches Ok(out) ==> ({
                &&& out.targets@ == members_of(old(self).editing_sessions@, project_name@)
                &&& out.message matches ServerRequest::RemoveProject { name } && name@
                    == project_name@
            }),
    {
        let pi = match self.find_project(&project_name) {
            Some(pi) => pi,
            None => {
                return Err(ServerError::ProjectDoesNotExist);
            },
        };
        proof {
            lemma_proj_idx(self.projects@, pi as int);
        }
        let recipients = self.get_all_cloned_recipients_project(&project_name);
        let message = match self.delete_project(project_name) {
            Ok(m) => m,
            Err(_) => {
                proof {
                    assert(false);
                }
                return Err(ServerError::ProjectDoesNotExist);
            },
        };
        Ok(Outgoing { targets: recipients, message })
    }

    /// The whole JoinProject operation: validates and applies the join, and
    /// reports the deliveries the transport owes — privately to the joining
    /// client, the prior membership list and then the full project snapshot;
    /// to the other members, the join notice. The returned snapshot feeds
    /// the detached batch of already-cached previews owed to the joiner.
    pub fn handle_join_project(&mut self, id: ClientId, project_name: ProjectId) -> (r: Result<
        JoinEffects,
        ServerError,
    >)
        requires
            old(self).wf(),
            old(self).sessions@.contains(id),
        ensures
            final(self).wf(),
            final(self).sessions@ == old(self).sessions@,
            final(self).projects@ == old(self).projects@,
            r is Err <==> (!has_proj(old(self).projects@, project_name@) || members_of(
                old(self).editing_sessions@,
                project_name@,
            ).contains(id)),
            r matches Err(e) ==> *final(self) == *old(self) && e == (
            if !has_proj(old(self).projects@, project_name@) {
                ServerError::ProjectDoesNotExist
            } else {
                ServerError::UserAlreadyJoinedProject
            }),
            r is Ok ==> members_of(final(self).editing_sessions@, project_name@) == members_of(
                old(self).editing_sessions@,
                project_name@,
            ).push(id),
            r matches Ok(eff) ==> ({
                let p = old(self).projects@[proj_idx(old(self).projects@, project_name@)];
                &&& eff.messages@.len() == 3
                &&& eff.messages@[0].targets@ =~= seq![id]
                &&& eff.messages@[0].message matches ServerRequest::JoinedUsers { users } && users@
                    == members_of(old(self).editing_sessions@, project_name@)
                &&& eff.messages@[1].targets@ =~= seq![id]
                &&& eff.messages@[1].message matches ServerRequest::ChangeProject {
                    seed,
                    video_urls,
                    name,
                    segments,
                } && seed@ == p.seed@ && video_urls@ == p.video_ids@ && name@ == p.name@
                    && segments@ == p.segments@
                &&& ids_unique(eff.messages@[2].targets@)
                &&& forall|x: usize|
                    eff.messages@[2].targets@.contains(x) <==> (members_of(
                        old(self).editing_sessions@,
                        project_name@,
                    ).contains(x) && x != id)
                &&& eff.messages@[2].message matches ServerRequest::UserJoinedProject { user }
                    && user == id
                &&& project_like(eff.project, p)
            }),
    {
        let ghost p = old(self).projects@[proj_idx(old(self).projects@, project_name@)];
        let snapshot = match self.find_project(&project_name) {
            Some(pi) => self.projects[pi].duplicate(),
            None => {
                return Err(ServerError::ProjectDoesNotExist);
            },
        };
        let (joined_users, change_project, notify_join) = match self.user_join_project(
            project_name.clone(),
            id,
        ) {
            Ok(msgs) => msgs,
            Err(e) => {
                return Err(e);
            },
        };
        let others = self.get_all_cloned_recipients_project_except(&project_name, id);
        proof {
            assert forall|x: usize|
                others@.contains(x) <==> (members_of(
                    old(self).editing_sessions@,
                    project_name@,
                ).contains(x) && x != id) by {
                let m_old = members_of(old(self).editing_sessions@, project_name@);
                let m_new = members_of(self.editing_sessions@, project_name@);
                assert(m_new == m_old.push(id));
                if others@.contains(x) {
                    assert(m_new.contains(x) && x != id);
                    let w = choose|w: int| 0 <= w < m_new.len() && m_new[w] == x;
                    if w < m_old.len() {
                        assert(m_old[w] == x);
                        assert(m_old.contains(x));
                    }
                }
                if m_old.contains(x) && x != id {
                    let w = choose|w: int| 0 <= w < m_old.len() && m_old[w] == x;
                    assert(m_new[w] == x);
                    assert(m_new.contains(x));
                }
            }
        }
        let mut me: Vec<SessionId> = Vec::new();
        me.push(id);
        let mut me2: Vec<SessionId> = Vec::new();
        me2.push(id);
        let mut messages: Vec<Outgoing> = Vec::new();
        messages.push(Outgoing { targets: me, message: joined_users });
        messages.push(Outgoing { targets: me2, message: change_project });
        messages.push(Outgoing { targets: others, message: notify_join });
        Ok(JoinEffects { messages, project: snapshot })
    }
}

/// Law: disconnecting removes a client from every project's editing-session
/// set at once, so any later broadcast to any project — whose recipients are
/// exactly that project's current members — excludes the departed client.
/// The two states are related as [`SmActor::disconnect`] leaves them.
pub proof fn lemma_disconnect_excludes(
    es_old: Seq<EditingEntry>,
    es_new: Seq<EditingEntry>,
    id: usize,
    n: Seq<char>,
)
    requires
        edits_unique(es_old),
        es_new.len() == es_old.len(),
        forall|i: int| 0 <= i < es_old.len() ==> es_new[i].name@ == es_old[i].name@,
        forall|i: int, x: usize|
            0 <= i < es_old.len() ==> ((#[trigger] es_new[i].members@.contains(x)) <==> (
            es_old[i].members@.contains(x) && x != id)),
        has_edit(es_old, n),
    ensures
        has_edit(es_new, n),
        !members_of(es_new, n).contains(id),
        forall|x: usize|
            members_of(es_new, n).contains(x) <==> (members_of(es_old, n).contains(x) && x != id),
{
    assert(edits_unique(es_new));
    let w = choose|w: int| 0 <= w < es_old.len() && es_old[w].name@ == n;
    lemma_edit_idx(es_old, w);
    assert(es_new[w].name@ == n);
    lemma_edit_idx(es_new, w);
}

/// What a CreateProject operation owes the outside: deliveries in order,
/// and the video batch to download.
pub struct CreateProjectEffects {
    pub messages: Vec<Outgoing>,
    pub download: Vec<crate::data::YoutubeId>,
}

/// What a JoinProject operation owes the outside: deliveries in order, and
/// the project snapshot whose cached previews the joiner is owed.
pub struct JoinEffects {
    pub messages: Vec<Outgoing>,
    pub project: Project,
}

/// What a segment operation owes the outside: the structural change to
/// broadcast first, and, where one is due, the snapshot a detached preview
/// pipeline must work from.
pub struct SegmentEffects {
    pub broadcast: Outgoing,
    pub preview: Option<PreviewRequest>,
}

/// An immutable snapshot for one detached preview pipeline: the project and
/// segment as they were when the edit was applied. A fast later edit does
/// not change what this pipeline renders.
pub struct PreviewRequest {
    pub project: Project,
    pub segment: Segment,
    pub row: usize,
}

/// What an Export operation owes the outside: the recipients of the final
/// render, and the project snapshot the render must be computed from.
pub struct ExportEffects {
    pub targets: Vec<SessionId>,
    pub project: Project,
}

impl SmActor {
    /// The whole CreateSegment operation: validates and inserts the segment,
    /// reports the insertion event for the project's editing-session set,
    /// and — only when the sentence is not blank — the snapshot for the
    /// detached preview pipeline.
    pub fn handle_create_segment(
        &mut self,
        project_name: ProjectId,
        segment_sentence: String,
        position: u16,
    ) -> (r: Result<SegmentEffects, ServerError>)
        requires
            old(self).wf(),
        ensures
            final(self).wf(),
            final(self).sessions@ == old(self).sessions@,
            final(self).editing_sessions@ == old(self).editing_sessions@,
            r is Err <==> (!has_proj(old(self).projects@, project_name@) || position as int
                > members_len(old(self).projects@, project_name@)),
            r matches Err(e) ==> *final(self) == *old(self) && e == (
            if !has_proj(old(self).projects@, project_name@) {
                ServerError::ProjectDoesNotExist
            } else {
                ServerError::SegmentOutOfBounds
            }),
            r is Ok ==> segment_inserted(
                old(self).projects@,
                final(self).projects@,
                project_name@,
                position as int,
                segment_sentence@,
            ),
            r matches Ok(eff) ==> ({
                let pi = proj_idx(old(self).projects@, project_name@);
                let p_new = final(self).projects@[pi];
                &&& eff.broadcast.targets@ == members_of(
                    old(self).editing_sessions@,
                    project_name@,
                )
                &&& eff.broadcast.message matches ServerRequest::NewSegment { segment, row }
                    && segment.sentence@ == segment_sentence@ && segment.combo_index == 0 && row
                    == position as usize
                &&& eff.preview is Some <==> !crate::outside::sentence_blank(segment_sentence@)
                &&& eff.preview matches Some(pr) ==> (project_like(pr.project, p_new)
                    && pr.segment.sentence@ == segment_sentence@ && pr.segment.combo_index == 0
                    && pr.row == position as usize)
            }),
    {
        let blank = crate::outside::is_blank(segment_sentence.as_str());
        let message = match self.add_segment(
            project_name.clone(),
            position,
            segment_sentence.clone(),
        ) {
            Ok(m) => m,
            Err(e) => {
                return Err(e);
            },
        };
        let targets = self.get_all_cloned_recipients_project(&project_name);
        let preview = if blank {
            None
        } else {
            let pi = self.find_project(&project_name).unwrap();
            Some(
                PreviewRequest {
                    project: self.projects[pi].duplicate(),
                    segment: Segment::new(segment_sentence.as_str()),
                    row: position as usize,
                },
            )
        };
        proof {
            lemma_proj_idx(old(self).projects@, proj_idx(old(self).projects@, project_name@));
        }
        Ok(SegmentEffects { broadcast: Outgoing { targets, message }, preview })
    }

    /// The whole ModifySegmentSentence operation: validates and applies the
    /// text change, reports the change event for the project's
    /// editing-session set, and the snapshot for the detached preview
    /// pipeline, which always runs.
    pub fn handle_modify_segment_sentence(
        &mut self,
        project_name: ProjectId,
        segment_position: u16,
        new_sentence: String,
    ) -> (r: Result<SegmentEffects, ServerError>)
        requires
            old(self).wf(),
        ensures
            final(self).wf(),
            final(self).sessions@ == old(self).sessions@,
            final(self).editing_sessions@ == old(self).editing_sessions@,
            r is Err <==> (!has_proj(old(self).projects@, project_name@) || segment_position as int
                >= members_len(old(self).projects@, project_name@)),
            r matches Err(e) ==> *final(self) == *old(self) && e == (
            if !has_proj(old(self).projects@, project_name@) {
                ServerError::ProjectDoesNotExist
            } else {
                ServerError::SegmentOutOfBounds
            }),
            r is Ok ==> segment_sentence_changed(
                old(self).projects@,
                final(self).projects@,
                project_name@,
                segment_position as int,
                new_sentence@,
            ),
            r matches Ok(eff) ==> ({
                let pi = proj_idx(old(self).projects@, project_name@);
                let p_new = final(self).projects@[pi];
                &&& eff.broadcast.targets@ == members_of(
                    old(self).editing_sessions@,
                    project_name@,
                )
                &&& eff.broadcast.message matches ServerRequest::ChangeSentence { row, sentence }
                    && sentence@ == new_sentence@ && row == segment_position as usize
                &&& eff.preview matches Some(pr) && project_like(pr.project, p_new)
                    && pr.segment.sentence@ == new_sentence@ && pr.segment.combo_index
                    == p_new.segments@[segment_position as int].combo_index && pr.row
                    == segment_position as usize
            }),
    {
        let message = match self.modify_segment_sentence(
            project_name.clone(),
            segment_position,
            new_sentence,
        ) {
            Ok(m) => m,
            Err(e) => {
                return Err(e);
            },
        };
        let targets = self.get_all_cloned_recipients_project(&project_name);
        let pi = self.find_project(&project_name).unwrap();
        let segment = self.projects[pi].segments[segment_position as usize].duplicate();
        let preview = Some(
            PreviewRequest {
                project: self.projects[pi].duplicate(),
                segment,
                row: segment_position as usize,
            },
        );
        proof {
            lemma_proj_idx(old(self).projects@, proj_idx(old(self).projects@, project_name@));
        }
        Ok(SegmentEffects { broadcast: Outgoing { targets, message }, preview })
    }

    /// The whole ModifySegmentComboIndex operation: like a sentence change,
    /// for the chosen-interpretation index.
    pub fn handle_modify_segment_combo_index(
        &mut self,
        project_name: ProjectId,
        segment_position: u16,
        new_combo_index: u16,
    ) -> (r: Result<SegmentEffects, ServerError>)
        requires
            old(self).wf(),
        ensures
            final(self).wf(),
            final(self).sessions@ == old(self).sessions@,
            final(self).editing_sessions@ == old(self).editing_sessions@,
            r is Err <==> (!has_proj(old(self).projects@, project_name@) || segment_position as int
                >= members_len(old(self).projects@, project_name@)),
            r matches Err(e) ==> *final(self) == *old(self) && e == (
            if !has_proj(old(self).projects@, project_name@) {
                ServerError::ProjectDoesNotExist
            } else {
                ServerError::SegmentOutOfBounds
            }),
            r is Ok ==> segment_combo_changed(
                old(self).projects@,
                final(self).projects@,
                project_name@,
                segment_position as int,
                new_combo_index,
            ),
            r matches Ok(eff) ==> ({
                let pi = proj_idx(old(self).projects@, project_name@);
                let p_new = final(self).projects@[pi];
                &&& eff.broadcast.targets@ == members_of(
                    old(self).editing_sessions@,
                    project_name@,
                )
                &&& eff.broadcast.message matches ServerRequest::ChangeComboIndex {
                    row,
                    combo_index,
                } && combo_index == new_combo_index && row == segment_position as usize
                &&& eff.preview matches Some(pr) && project_like(pr.project, p_new)
                    && pr.segment.sentence@ == p_new.segments@[segment_position as int].sentence@
                    && pr.segment.combo_index == new_combo_index && pr.row == segment_position
                    as usize
            }),
    {
        let message = match self.modify_segment_combo_index(
            project_name.clone(),
            segment_position,
            new_combo_index,
        ) {
            Ok(m) => m,
            Err(e) => {
                return Err(e);
            },
        };
        let targets = self.get_all_cloned_recipients_project(&project_name);
        let pi = self.find_project(&project_name).unwrap();
        let segment = self.projects[pi].segments[segment_position as usize].duplicate();
        let preview = Some(
            PreviewRequest {
                project: self.projects[pi].duplicate(),
                segment,
                row: segment_position as usize,
            },
        );
        proof {
            lemma_proj_idx(old(self).projects@, proj_idx(old(self).projects@, project_name@));
        }
        Ok(SegmentEffects { broadcast: Outgoing { targets, message }, preview })
    }

    /// The whole RemoveSegment operation: validates and applies the removal
    /// and reports the removal event for the project's editing-session set.
    /// No pipeline follows.
    pub fn handle_remove_segment(&mut self, project_name: ProjectId, segment_position: u16) -> (r:
        Result<Outgoing, ServerError>)
        requires
            old(self).wf(),
        ensures
            final(self).wf(),
            final(self).sessions@ == old(self).sessions@,
            final(self).editing_sessions@ == old(self).editing_sessions@,
            r is Err <==> (!has_proj(old(self).projects@, project_name@) || segment_position as int
                >= members_len(old(self).projects@, project_name@)),
            r matches Err(e) ==> *final(self) == *old(self) && e == (
            if !has_proj(old(self).projects@, project_name@) {
                ServerError::ProjectDoesNotExist
            } else {
                ServerError::SegmentOutOfBounds
            }),
            r is Ok ==> segment_removed(
                old(self).projects@,
                final(self).projects@,
                project_name@,
                segment_position as int,
            ),
            r matches Ok(out) ==> ({
                &&& out.targets@ == members_of(old(self).editing_sessions@, project_name@)
                &&& out.message matches ServerRequest::RemoveSegment { row } && row
                    == segment_position as usize
            }),
    {
        let message = match self.remove_segment(project_name.clone(), segment_position) {
            Ok(m) => m,
            Err(e) => {
                return Err(e);
            },
        };
        let targets = self.get_all_cloned_recipients_project(&project_name);
        Ok(Outgoing { targets, message })
    }

    /// The whole Export operation's synchronous part: validates the name and
    /// hands out the recipients and the immutable project snapshot that the
    /// detached render pipeline must work from.
    pub fn handle_export(&self, project_name: ProjectId) -> (r: Result<ExportEffects, ServerError>)
        requires
            self.wf(),
        ensures
            r is Err <==> !has_proj(self.projects@, project_name@),
            r matches Err(e) ==> e == ServerError::ProjectDoesNotExist,
            r matches Ok(eff) ==> ({
                let p = self.projects@[proj_idx(self.projects@, project_name@)];
                &&& eff.targets@ == members_of(self.editing_sessions@, project_name@)
                &&& project_like(eff.project, p)
            }),
    {
        let pi = match self.find_project(&project_name) {
            Some(pi) => pi,
            None => {
                return Err(ServerError::ProjectDoesNotExist);
            },
        };
        let project = self.projects[pi].duplicate();
        let targets = self.get_all_cloned_recipients_project(&project_name);
        Ok(ExportEffects { targets, project })
    }
}

/// Removes `x` from `v`, if present.
fn remove_id(v: &mut Vec<usize>, x: usize)
    requires
        ids_unique(old(v)@),
    ensures
        ids_unique(final(v)@),
        forall|y: usize| final(v)@.contains(y) <==> (old(v)@.contains(y) && y != x),
{
    let mut i: usize = 0;
    while i < v.len()
        invariant
            ids_unique(v@),
            v@ == old(v)@,
            i <= v@.len(),
            forall|j: int| 0 <= j < i ==> v@[j] != x,
        decreases v@.len() - i,
    {
        if v[i] == x {
            v.remove(i);
            proof {
                let s_old = old(v)@;
                let s_new = v@;
                assert forall|a: int, b: int| 0 <= a < b < s_new.len() implies s_new[a]
                    != s_new[b] by {
                    let a0: int = if a < i as int {
                        a
                    } else {
                        a + 1
                    };
                    let b0: int = if b < i as int {
                        b
                    } else {
                        b + 1
                    };
                    assert(s_new[a] == s_old[a0]);
                    assert(s_new[b] == s_old[b0]);
                }
                assert forall|y: usize|
                    s_new.contains(y) <==> (s_old.contains(y) && y != x) by {
                    if s_new.contains(y) {
                        let w = choose|w: int| 0 <= w < s_new.len() && s_new[w] == y;
                        let w0: int = if w < i as int {
                            w
                        } else {
                            w + 1
                        };
                        assert(s_old[w0] == y);
                        assert(s_old.contains(y));
                        assert(s_old[w0] != s_old[i as int]);
                    }
                    if s_old.contains(y) && y != x {
                        let w = choose|w: int| 0 <= w < s_old.len() && s_old[w] == y;
                        let w1: int = if w < i as int {
                            w
                        } else {
                            w - 1
                        };
                        assert(s_new[w1] == y);
                        assert(s_new.contains(y));
                    }
                }
            }
            return ;
        }
        i = i + 1;
    }
    proof {
        if old(v)@.contains(x) {
            let w = choose|w: int| 0 <= w < old(v)@.len() && old(v)@[w] == x;
            assert(false);
        }
        assert forall|y: usize| v@.contains(y) implies (old(v)@.contains(y) && y != x) by {}
    }
}

/// The current segment count of the project named `name`.
pub open spec fn members_len(ps: Seq<Project>, name: Seq<char>) -> int {
    ps[proj_idx(ps, name)].segments@.len() as int
}

/// Two projects carry the same data.
pub open spec fn project_like(a: Project, b: Project) -> bool {
    a.name@ == b.name@ && a.seed@ == b.seed@ && a.video_ids@ == b.video_ids@ && a.segments@
        == b.segments@
}

/// `ps_new` is `ps_old` with one segment inserted at `pos` of the project
/// named `name`: the new segment carries `sentence` and the first
/// interpretation, every other project and field is untouched.
pub open spec fn segment_inserted(
    ps_old: Seq<Project>,
    ps_new: Seq<Project>,
    name: Seq<char>,
    pos: int,
    sentence: Seq<char>,
) -> bool {
    let pi = proj_idx(ps_old, name);
    let p_old = ps_old[pi];
    let p_new = ps_new[pi];
    let seg = p_new.segments@[pos];
    &&& ps_new.len() == ps_old.len()
    &&& forall|j: int| 0 <= j < ps_old.len() && j != pi ==> ps_new[j] == ps_old[j]
    &&& p_new.name == p_old.name
    &&& p_new.seed == p_old.seed
    &&& p_new.video_ids@ == p_old.video_ids@
    &&& p_new.segments@ == p_old.segments@.insert(pos, seg)
    &&& p_new.segments@.len() == p_old.segments@.len() + 1
    &&& seg.sentence@ == sentence
    &&& seg.combo_index == 0
}

/// `ps_new` is `ps_old` with the segment at `pos` of the project named
/// `name` rewritten to `sentence`, its interpretation index kept.
pub open spec fn segment_sentence_changed(
    ps_old: Seq<Project>,
    ps_new: Seq<Project>,
    name: Seq<char>,
    pos: int,
    sentence: Seq<char>,
) -> bool {
    let pi = proj_idx(ps_old, name);
    let p_old = ps_old[pi];
    let p_new = ps_new[pi];
    let seg = p_new.segments@[pos];
    &&& ps_new.len() == ps_old.len()
    &&& forall|j: int| 0 <= j < ps_old.len() && j != pi ==> ps_new[j] == ps_old[j]
    &&& p_new.name == p_old.name
    &&& p_new.seed == p_old.seed
    &&& p_new.video_ids@ == p_old.video_ids@
    &&& p_new.segments@ == p_old.segments@.update(pos, seg)
    &&& seg.sentence@ == sentence
    &&& seg.combo_index == p_old.segments@[pos].combo_index
}

/// `ps_new` is `ps_old` with the segment at `pos` of the project named
/// `name` re-pointed at interpretation `index`, its sentence kept.
pub open spec fn segment_combo_changed(
    ps_old: Seq<Project>,
    ps_new: Seq<Project>,
    name: Seq<char>,
    pos: int,
    index: u16,
) -> bool {
    let pi = proj_idx(ps_old, name);
    let p_old = ps_old[pi];
    let p_new = ps_new[pi];
    let seg = p_new.segments@[pos];
    &&& ps_new.len() == ps_old.len()
    &&& forall|j: int| 0 <= j < ps_old.len() && j != pi ==> ps_new[j] == ps_old[j]
    &&& p_new.name == p_old.name
    &&& p_new.seed == p_old.seed
    &&& p_new.video_ids@ == p_old.video_ids@
    &&& p_new.segments@ == p_old.segments@.update(pos, seg)
    &&& seg.sentence@ == p_old.segments@[pos].sentence@
    &&& seg.combo_index == index
}

/// `ps_new` is `ps_old` with the segment at `pos` of the project named
/// `name` removed.
pub open spec fn segment_removed(
    ps_old: Seq<Project>,
    ps_new: Seq<Project>,
    name: Seq<char>,
    pos: int,
) -> bool {
    let pi = proj_idx(ps_old, name);
    let p_old = ps_old[pi];
    let p_new = ps_new[pi];
    &&& ps_new.len() == ps_old.len()
    &&& forall|j: int| 0 <= j < ps_old.len() && j != pi ==> ps_new[j] == ps_old[j]
    &&& p_new.name == p_old.name
    &&& p_new.seed == p_old.seed
    &&& p_new.video_ids@ == p_old.video_ids@
    &&& p_new.segments@ == p_old.segments@.remove(pos)
}

/// A well-formed state stays well-formed when one project changes without
/// changing its name.
proof fn lemma_wf_after_project_update(pre: SmActor, post: SmActor, pi: int)
    requires
        pre.wf(),
        0 <= pi < pre.projects@.len(),
        post.sessions@ == pre.sessions@,
        post.editing_sessions@ == pre.editing_sessions@,
        post.projects@.len() == pre.projects@.len(),
        forall|j: int| 0 <= j < pre.projects@.len() && j != pi ==> post.projects@[j]
            == pre.projects@[j],
        post.projects@[pi].name@ == pre.projects@[pi].name@,
    ensures
        post.wf(),
        has_proj(post.projects@, pre.projects@[pi].name@),
        proj_idx(post.projects@, pre.projects@[pi].name@) == pi,
        forall|n: Seq<char>| has_proj(post.projects@, n) <==> has_proj(pre.projects@, n),
{
    assert forall|a: int| 0 <= a < post.projects@.len() implies post.projects@[a].name@
        == pre.projects@[a].name@ by {}
    assert(projs_unique(post.projects@));
    lemma_proj_idx(post.projects@, pi);
    assert forall|n: Seq<char>| has_proj(post.projects@, n) <==> has_proj(pre.projects@, n) by {
        if has_proj(post.projects@, n) {
            let w = choose|w: int| 0 <= w < post.projects@.len() && post.projects@[w].name@ == n;
            assert(pre.projects@[w].name@ == n);
        }
        if has_proj(pre.projects@, n) {
            let w = choose|w: int| 0 <= w < pre.projects@.len() && pre.projects@[w].name@ == n;
            assert(post.projects@[w].name@ == n);
        }
    }
    assert forall|i: int| 0 <= i < post.projects@.len() implies has_edit(
        post.editing_sessions@,
        post.projects@[i].name@,
    ) by {
        assert(post.projects@[i].name@ == pre.projects@[i].name@);
    }
}

/// The ids of `v`, in order.
fn copy_ids(v: &Vec<usize>) -> (r: Vec<usize>)
    ensures
        r@ == v@,
{
    let mut r: Vec<usize> = Vec::new();
    let mut i: usize = 0;
    while i < v.len()
        invariant
            i <= v@.len(),
            r@ =~= v@.take(i as int),
        decreases v@.len() - i,
    {
        r.push(v[i]);
        i = i + 1;
    }
    proof {
        assert(r@ =~= v@);
    }
    r
}

} // verus!
