use vstd::prelude::*;
use crate::error::{PlazaError, PlazaResult, is_internal, is_not_found};
use crate::string_map::StringMap;
use crate::text::str_eq;

verus! {

/// A VM snapshot capturing memory and disk state.
#[derive(Debug)]
pub struct Snapshot {
    pub id: String,
    pub workspace_id: String,
    pub name: String,
    pub description: Option<String>,
    pub size_bytes: u64,
    pub created_at: String,
    pub parent_id: Option<String>,
    pub tags: StringMap,
}

/// A snapshot, with every string taken as its characters.
pub struct SnapshotView {
    pub id: Seq<char>,
    pub workspace_id: Seq<char>,
    pub name: Seq<char>,
    pub description: Option<Seq<char>>,
    pub size_bytes: u64,
    pub created_at: Seq<char>,
    pub parent_id: Option<Seq<char>>,
    pub tags: Map<Seq<char>, Seq<char>>,
}

/// The characters of an optional string.
pub open spec fn opt_view(o: Option<String>) -> Option<Seq<char>> {
    match o {
        Some(s) => Some(s@),
        None => None,
    }
}

impl View for Snapshot {
    type V = SnapshotView;

    open spec fn view(&self) -> SnapshotView {
        SnapshotView {
            id: self.id@,
            workspace_id: self.workspace_id@,
            name: self.name@,
            description: opt_view(self.description),
            size_bytes: self.size_bytes,
            created_at: self.created_at@,
            parent_id: opt_view(self.parent_id),
            tags: self.tags@,
        }
    }
}

fn clone_opt(o: &Option<String>) -> (r: Option<String>)
    ensures
        opt_view(r) == opt_view(*o),
{
    match o {
        Some(s) => Some(s.clone()),
        None => None,
    }
}

impl Clone for Snapshot {
    fn clone(&self) -> (r: Self)
        ensures
            r@ == self@,
    {
        Snapshot {
            id: self.id.clone(),
            workspace_id: self.workspace_id.clone(),
            name: self.name.clone(),
            description: clone_opt(&self.description),
            size_bytes: self.size_bytes,
            created_at: self.created_at.clone(),
            parent_id: clone_opt(&self.parent_id),
            tags: self.tags.clone(),
        }
    }
}

/// The snapshots of a list, as views.
pub open spec fn snaps_view(v: Seq<Snapshot>) -> Seq<SnapshotView> {
    v.map_values(|s: Snapshot| s@)
}

/// No two snapshots share an id.
pub open spec fn ids_distinct(s: Seq<SnapshotView>) -> bool {
    forall|i: int, j: int| 0 <= i < j < s.len() ==> s[i].id != s[j].id
}

/// Some snapshot has the id.
pub open spec fn has_id(s: Seq<SnapshotView>, id: Seq<char>) -> bool {
    exists|i: int| 0 <= i < s.len() && s[i].id == id
}

/// The position of the snapshot with the id (meaningful where `has_id`).
pub open spec fn position(s: Seq<SnapshotView>, id: Seq<char>) -> int {
    choose|i: int| 0 <= i < s.len() && s[i].id == id
}

/// The snapshot with the id, if any.
pub open spec fn lookup(s: Seq<SnapshotView>, id: Seq<char>) -> Option<SnapshotView> {
    if has_id(s, id) {
        Some(s[position(s, id)])
    } else {
        None
    }
}

/// The store after recording `snap`: it replaces the snapshot with the same
/// id, or joins the end of the store.
pub open spec fn store_insert(s: Seq<SnapshotView>, snap: SnapshotView) -> Seq<SnapshotView> {
    if has_id(s, snap.id) {
        s.update(position(s, snap.id), snap)
    } else {
        s.push(snap)
    }
}

/// Some snapshot names the id as its parent.
pub open spec fn has_children(s: Seq<SnapshotView>, id: Seq<char>) -> bool {
    exists|i: int| 0 <= i < s.len() && s[i].parent_id == Some(id)
}

/// The store after removing the snapshot with the id.
pub open spec fn store_remove(s: Seq<SnapshotView>, id: Seq<char>) -> Seq<SnapshotView> {
    s.remove(position(s, id))
}

/// The message of a missing snapshot.
pub open spec fn not_found_message(id: Seq<char>) -> Seq<char> {
    "Snapshot "@ + id
}

/// The snapshots of a workspace, in store order.
pub open spec fn in_workspace(s: Seq<SnapshotView>, workspace_id: Seq<char>) -> Seq<SnapshotView> {
    s.filter(|x: SnapshotView| x.workspace_id == workspace_id)
}

/// The lineage from `id`, following at most `fuel` parent links: the
/// snapshot with the id, its parent, its grandparent and so on, ending at a
/// snapshot without a parent or at a parent id that the store does not hold.
pub open spec fn lineage_from(s: Seq<SnapshotView>, id: Seq<char>, fuel: nat) -> Seq<SnapshotView>
    decreases fuel,
{
    if fuel == 0 {
        Seq::empty()
    } else {
        match lookup(s, id) {
            None => Seq::empty(),
            Some(x) => seq![x] + match x.parent_id {
                Some(p) => lineage_from(s, p, (fuel - 1) as nat),
                None => Seq::empty(),
            },
        }
    }
}

/// The chain of parents from `id` holds at most `fuel` stored snapshots
/// before it reaches a snapshot without a parent or a parent id that the
/// store does not hold. With `fuel` the size of the store, this fails only
/// where the chain runs into a cycle, on which it never ends.
pub open spec fn chain_ends_within(s: Seq<SnapshotView>, id: Seq<char>, fuel: nat) -> bool
    decreases fuel,
{
    match lookup(s, id) {
        None => true,
        Some(x) => fuel > 0 && match x.parent_id {
            None => true,
            Some(p) => chain_ends_within(s, p, (fuel - 1) as nat),
        },
    }
}

/// The lineage of `id` in the store: its chain of ancestors, no longer than
/// the store; where the chain ends (`chain_ends_within`), no snapshot occurs
/// in it twice (`lemma_lineage_distinct`).
pub open spec fn lineage_of(s: Seq<SnapshotView>, id: Seq<char>) -> Seq<SnapshotView> {
    lineage_from(s, id, s.len())
}

/// A fresh snapshot id: a random (version 4) UUID in its hyphenated form.
///
/// Calls `uuid::Uuid::new_v4` and formats the result with its `Display`
/// impl. The contract states the shape that the formatting guarantees (36
/// characters with hyphens at positions 8, 13, 18 and 23); it says nothing of
/// the value, which is random.
#[verifier::external_body]
fn new_snapshot_id() -> (id: String)
    ensures
        id@.len() == 36,
        id@[8] == '-',
        id@[13] == '-',
        id@[18] == '-',
        id@[23] == '-',
{
    uuid::Uuid::new_v4().to_string()
}

/// The current time in RFC 3339 form.
///
/// Calls `chrono::Utc::now` and formats it with `DateTime::to_rfc3339`. The
/// value depends on the clock; the contract states the shape that the
/// formatting guarantees for a UTC time: at least 25 characters (date, `T`,
/// time, offset), ending in the offset `+00:00`. It leaves unsaid the digits
/// and whether a fraction of a second is written.
#[verifier::external_body]
fn now_rfc3339() -> (t: String)
    ensures
        t@.len() >= 25,
        t@.subrange(t@.len() - 6, t@.len() as int) == "+00:00"@,
{
    chrono::Utc::now().to_rfc3339()
}

/// Snapshot store with lineage tracking through parent ids.
pub struct SnapshotManager {
    snapshots: Vec<Snapshot>,
}

impl View for SnapshotManager {
    type V = Seq<SnapshotView>;

    closed spec fn view(&self) -> Seq<SnapshotView> {
        snaps_view(self.snapshots@)
    }
}

impl SnapshotManager {
    #[verifier::type_invariant]
    spec fn unique_ids(&self) -> bool {
        ids_distinct(self@)
    }

    /// An empty store.
    pub fn new() -> (m: Self)
        ensures
            m@ == Seq::<SnapshotView>::empty(),
            ids_distinct(m@),
    {
        let m = SnapshotManager { snapshots: Vec::new() };
        assert(m@ =~= Seq::<SnapshotView>::empty());
        m
    }

    /// The position of the snapshot with the id, if the store holds it.
    fn find(&self, id: &str) -> (r: Option<usize>)
        ensures
            match r {
                Some(j) => j < self@.len() && self@[j as int].id == id@ && j == position(self@, id@),
                None => !has_id(self@, id@),
            },
    {
        proof {
            use_type_invariant(self);
        }
        let mut i: usize = 0;
        while i < self.snapshots.len()
            invariant
                i <= self@.len(),
                self@.len() == self.snapshots@.len(),
                ids_distinct(self@),
                forall|k: int| 0 <= k < i ==> self@[k].id != id@,
            decreases self@.len() - i,
        {
            proof {
                assert(self@[i as int] == self.snapshots@[i as int]@);
            }
            if str_eq(self.snapshots[i].id.as_str(), id) {
                proof {
                    let p = position(self@, id@);
                    assert(has_id(self@, id@));
                    assert(self@[p].id == id@);
                }
                return Some(i);
            }
            i = i + 1;
        }
        None
    }

    /// Records a snapshot of the workspace under the given id and creation
    /// time, with no description, size zero and no tags; a snapshot already
    /// held under the id is replaced.
    pub fn create_snapshot_with(
        &mut self,
        id: String,
        created_at: String,
        workspace_id: &str,
        name: &str,
        parent_id: Option<String>,
    ) -> (snap: Snapshot)
        ensures
            snap.id@ == id@,
            snap.created_at@ == created_at@,
            snap.workspace_id@ == workspace_id@,
            snap.name@ == name@,
            snap.description is None,
            snap.size_bytes == 0,
            opt_view(snap.parent_id) == opt_view(parent_id),
            snap.tags@ == Map::<Seq<char>, Seq<char>>::empty(),
            final(self)@ == store_insert(old(self)@, snap@),
            final(self)@.contains(snap@),
            forall|i: int| 0 <= i < old(self)@.len() && old(self)@[i].id != id@ ==> final(self)@.contains(
                #[trigger] old(self)@[i],
            ),
            forall|i: int|
                0 <= i < final(self)@.len() ==> #[trigger] final(self)@[i] == snap@ || old(self)@.contains(
                    final(self)@[i],
                ),
            ids_distinct(old(self)@),
            ids_distinct(final(self)@),
    {
        proof {
            use_type_invariant(&*self);
        }
        let snap = Snapshot {
            id,
            workspace_id: workspace_id.to_owned(),
            name: name.to_owned(),
            description: None,
            size_bytes: 0,
            created_at,
            parent_id,
            tags: StringMap::new(),
        };
        let stored = snap.clone();
        let ghost before = self@;
        let found = self.find(snap.id.as_str());
        let mut snapshots: Vec<Snapshot> = Vec::new();
        std::mem::swap(&mut snapshots, &mut self.snapshots);
        match found {
            Some(j) => {
                snapshots.set(j, stored);
                proof {
                    assert(snaps_view(snapshots@) =~= before.update(j as int, snap@));
                    assert(ids_distinct(snaps_view(snapshots@)));
                }
            },
            None => {
                snapshots.push(stored);
                proof {
                    assert(snaps_view(snapshots@) =~= before.push(snap@));
                    assert(ids_distinct(snaps_view(snapshots@)));
                }
            },
        }
        self.snapshots = snapshots;
        proof {
            lemma_store_insert_meaning(before, snap@);
        }
        snap
    }

    /// Records a snapshot of the workspace under a fresh random id, stamped
    /// with the current time, with no description, size zero and no tags.
    pub fn create_snapshot(&mut self, workspace_id: &str, name: &str, parent_id: Option<String>) -> (r:
        PlazaResult<Snapshot>)
        ensures
            r is Ok,
            r matches Ok(snap) && {
                &&& snap.id@.len() == 36
                &&& snap.id@[8] == '-'
                &&& snap.id@[13] == '-'
                &&& snap.id@[18] == '-'
                &&& snap.id@[23] == '-'
                &&& snap.created_at@.len() >= 25
                &&& snap.created_at@.subrange(snap.created_at@.len() - 6, snap.created_at@.len() as int)
                    == "+00:00"@
                &&& snap.workspace_id@ == workspace_id@
                &&& snap.name@ == name@
                &&& snap.description is None
                &&& snap.size_bytes == 0
                &&& opt_view(snap.parent_id) == opt_view(parent_id)
                &&& snap.tags@ == Map::<Seq<char>, Seq<char>>::empty()
                &&& final(self)@ == store_insert(old(self)@, snap@)
            },
            ids_distinct(final(self)@),
    {
        let id = new_snapshot_id();
        let created_at = now_rfc3339();
        Ok(self.create_snapshot_with(id, created_at, workspace_id, name, parent_id))
    }

    /// The snapshot with the id; `NotFound` where the store does not hold it.
    pub fn get_snapshot(&self, id: &str) -> (r: PlazaResult<Snapshot>)
        ensures
            r is Ok <==> has_id(self@, id@),
            r matches Ok(snap) ==> lookup(self@, id@) == Some(snap@),
            r is Err ==> is_not_found(r, not_found_message(id@)),
            r is Err ==> is_not_found(r, "Snapshot "@ + id@),
            r is Ok <==> (exists|i: int| 0 <= i < self@.len() && self@[i].id == id@),
            r is Ok ==> (exists|i: int| 0 <= i < self@.len() && self@[i].id == id@ && self@[i] == r->Ok_0@),
            ids_distinct(self@),
    {
        proof {
            use_type_invariant(self);
        }
        match self.find(id) {
            Some(j) => {
                proof {
                    assert(self@[j as int] == self.snapshots@[j as int]@);
                }
                Ok(self.snapshots[j].clone())
            },
            None => Err(PlazaError::NotFound(String::from_str("Snapshot ").concat(id))),
        }
    }

    /// Whether some snapshot names the id as its parent.
    fn has_children(&self, id: &str) -> (r: bool)
        ensures
            r == has_children(self@, id@),
    {
        let mut i: usize = 0;
        while i < self.snapshots.len()
            invariant
                i <= self@.len(),
                self@.len() == self.snapshots@.len(),
                forall|k: int| 0 <= k < i ==> self@[k].parent_id != Some(id@),
            decreases self@.len() - i,
        {
            proof {
                assert(self@[i as int] == self.snapshots@[i as int]@);
            }
            match &self.snapshots[i].parent_id {
                Some(p) => {
                    if str_eq(p.as_str(), id) {
                        return true;
                    }
                },
                None => {},
            }
            i = i + 1;
        }
        false
    }

    /// Deletes the snapshot with the id. Refused while another snapshot names
    /// it as its parent; `NotFound` where the store does not hold it.
    pub fn delete_snapshot(&mut self, id: &str) -> (r: PlazaResult<()>)
        ensures
            r is Ok <==> !has_children(old(self)@, id@) && has_id(old(self)@, id@),
            has_children(old(self)@, id@) ==> is_internal(r, "Cannot delete snapshot with children"@),
            !has_children(old(self)@, id@) && !has_id(old(self)@, id@) ==> is_not_found(
                r,
                not_found_message(id@),
            ),
            !has_children(old(self)@, id@) && !has_id(old(self)@, id@) ==> is_not_found(
                r,
                "Snapshot "@ + id@,
            ),
            r is Ok ==> final(self)@ == store_remove(old(self)@, id@),
            r is Err ==> final(self)@ == old(self)@,
            (exists|i: int| 0 <= i < old(self)@.len() && old(self)@[i].parent_id == Some(id@)) ==> r is Err
                && final(self)@ == old(self)@,
            (forall|i: int| 0 <= i < old(self)@.len() ==> old(self)@[i].id != id@) ==> r is Err,
            r is Ok ==> (exists|j: int|
                0 <= j < old(self)@.len() && old(self)@[j].id == id@ && final(self)@ == old(self)@.remove(j)),
            ids_distinct(old(self)@),
            ids_distinct(final(self)@),
    {
        proof {
            use_type_invariant(&*self);
        }
        if self.has_children(id) {
            return Err(PlazaError::Internal(String::from_str("Cannot delete snapshot with children")));
        }
        match self.find(id) {
            None => Err(PlazaError::NotFound(String::from_str("Snapshot ").concat(id))),
            Some(j) => {
                let ghost before = self@;
                let mut snapshots: Vec<Snapshot> = Vec::new();
                std::mem::swap(&mut snapshots, &mut self.snapshots);
                snapshots.remove(j);
                proof {
                    assert(snaps_view(snapshots@) =~= before.remove(j as int));
                    assert forall|a: int, b: int| 0 <= a < b < snaps_view(snapshots@).len() implies
                        snaps_view(snapshots@)[a].id != snaps_view(snapshots@)[b].id by {
                        let s2 = snaps_view(snapshots@);
                        let a0 = if a < j { a } else { a + 1 };
                        let b0 = if b < j { b } else { b + 1 };
                        assert(s2[a] == before[a0]);
                        assert(s2[b] == before[b0]);
                    }
                }
                self.snapshots = snapshots;
                Ok(())
            },
        }
    }

    /// The snapshots of the workspace, in store order.
    pub fn list_by_workspace(&self, workspace_id: &str) -> (r: Vec<Snapshot>)
        ensures
            snaps_view(r@) == in_workspace(self@, workspace_id@),
            ids_distinct(self@),
    {
        proof {
            use_type_invariant(self);
        }
        let ghost pred = |x: SnapshotView| x.workspace_id == workspace_id@;
        let mut out: Vec<Snapshot> = Vec::new();
        let mut i: usize = 0;
        while i < self.snapshots.len()
            invariant
                i <= self@.len(),
                self@.len() == self.snapshots@.len(),
                pred == (|x: SnapshotView| x.workspace_id == workspace_id@),
                snaps_view(out@) == self@.take(i as int).filter(pred),
            decreases self@.len() - i,
        {
            proof {
                assert(self@[i as int] == self.snapshots@[i as int]@);
                assert(self@.take(i + 1) =~= self@.take(i as int).push(self@[i as int]));
                self@.take(i as int).lemma_filter_push(self@[i as int], pred);
            }
            if str_eq(self.snapshots[i].workspace_id.as_str(), workspace_id) {
                let c = self.snapshots[i].clone();
                out.push(c);
                proof {
                    assert(snaps_view(out@) =~= self@.take(i as int).filter(pred).push(self@[i as int]));
                }
            }
            i = i + 1;
        }
        proof {
            assert(self@.take(i as int) =~= self@);
        }
        out
    }

    /// The lineage of the snapshot with the id: the snapshot, its parent,
    /// its grandparent and so on, child first.
    ///
    /// The chain must end: where it runs into a cycle of parent links, the
    /// walk up the parents would never stop (see `has_finite_lineage`).
    pub fn lineage(&self, id: &str) -> (r: Vec<Snapshot>)
        requires
            chain_ends_within(self@, id@, self@.len()),
        ensures
            snaps_view(r@) == lineage_of(self@, id@),
            r@.len() == 0 <==> !has_id(self@, id@),
            r@.len() > 0 ==> (r@.last().parent_id is None || !has_id(
                self@,
                r@.last().parent_id->0@,
            )),
            r@.len() <= self@.len(),
            forall|i: int, j: int| 0 <= i < j < r@.len() ==> r@[i].id@ != r@[j].id@,
            ids_distinct(self@),
    {
        proof {
            use_type_invariant(self);
        }
        let ghost target = lineage_of(self@, id@);
        let mut chain: Vec<Snapshot> = Vec::new();
        let mut current: String = id.to_owned();
        let mut fuel: usize = self.snapshots.len();
        let mut done = false;
        proof {
            assert(snaps_view(chain@) =~= Seq::<SnapshotView>::empty());
            assert(snaps_view(chain@) + lineage_from(self@, current@, fuel as nat) =~= target);
        }
        while fuel > 0 && !done
            invariant
                target == lineage_of(self@, id@),
                fuel <= self@.len(),
                snaps_view(chain@) + (if done {
                    Seq::<SnapshotView>::empty()
                } else {
                    lineage_from(self@, current@, fuel as nat)
                }) == target,
            decreases 2 * fuel + (if done { 0int } else { 1int }),
        {
            let ghost old_chain = snaps_view(chain@);
            match self.find(current.as_str()) {
                None => {
                    proof {
                        assert(lineage_from(self@, current@, fuel as nat) == Seq::<SnapshotView>::empty());
                        assert(old_chain + Seq::<SnapshotView>::empty() =~= old_chain);
                    }
                    done = true;
                },
                Some(j) => {
                    let ghost x = self@[j as int];
                    proof {
                        assert(x == self.snapshots@[j as int]@);
                        assert(lookup(self@, current@) == Some(x));
                    }
                    let c = self.snapshots[j].clone();
                    chain.push(c);
                    proof {
                        assert(snaps_view(chain@) =~= old_chain.push(x));
                    }
                    match &self.snapshots[j].parent_id {
                        Some(p) => {
                            let ghost rest = lineage_from(self@, p@, (fuel - 1) as nat);
                            proof {
                                assert(lineage_from(self@, current@, fuel as nat) == seq![x] + rest);
                                assert(old_chain + (seq![x] + rest) =~= old_chain.push(x) + rest);
                            }
                            current = p.clone();
                            fuel = fuel - 1;
                        },
                        None => {
                            proof {
                                assert(lineage_from(self@, current@, fuel as nat) =~= seq![x]);
                                assert(old_chain + seq![x] =~= old_chain.push(x));
                                assert(old_chain.push(x) + Seq::<SnapshotView>::empty() =~= old_chain.push(x));
                            }
                            done = true;
                        },
                    }
                },
            }
        }
        proof {
            if !done {
                assert(fuel == 0);
                assert(lineage_from(self@, current@, 0) == Seq::<SnapshotView>::empty());
            }
            assert(snaps_view(chain@) + Seq::<SnapshotView>::empty() =~= snaps_view(chain@));
            lemma_lineage_complete(self@, id@, self@.len());
            lemma_lineage_chain(self@, id@, self@.len());
            lemma_lineage_distinct(self@, id@, self@.len());
            assert forall|i: int, j: int| 0 <= i < j < chain@.len() implies chain@[i].id@ != chain@[j].id@ by {
                assert(snaps_view(chain@)[i] == chain@[i]@);
                assert(snaps_view(chain@)[j] == chain@[j]@);
            }
            if chain@.len() > 0 {
                assert(snaps_view(chain@).last() == chain@.last()@);
            }
        }
        chain
    }

    /// Whether the chain of parents from the id ends, so that its lineage
    /// can be taken: false exactly where the chain runs into a cycle of
    /// parent links.
    pub fn has_finite_lineage(&self, id: &str) -> (r: bool)
        ensures
            r == chain_ends_within(self@, id@, self@.len()),
            ids_distinct(self@),
    {
        proof {
            use_type_invariant(self);
        }
        let ghost n = self@.len();
        let mut current: String = id.to_owned();
        let mut fuel: usize = self.snapshots.len();
        loop
            invariant
                n == self@.len(),
                ids_distinct(self@),
                fuel <= n,
                chain_ends_within(self@, id@, n) == chain_ends_within(self@, current@, fuel as nat),
            decreases fuel,
        {
            match self.find(current.as_str()) {
                None => {
                    return true;
                },
                Some(j) => {
                    proof {
                        assert(self@[j as int] == self.snapshots@[j as int]@);
                        assert(lookup(self@, current@) == Some(self@[j as int]));
                    }
                    if fuel == 0 {
                        return false;
                    }
                    match &self.snapshots[j].parent_id {
                        None => {
                            return true;
                        },
                        Some(p) => {
                            current = p.clone();
                            fuel = fuel - 1;
                        },
                    }
                },
            }
        }
    }
}

/// Where the chain of parents ends within the fuel, more fuel gives the
/// same lineage: the whole chain.
pub proof fn lemma_lineage_fuel(s: Seq<SnapshotView>, id: Seq<char>, a: nat, b: nat)
    requires
        chain_ends_within(s, id, a),
        a <= b,
    ensures
        lineage_from(s, id, a) == lineage_from(s, id, b),
        chain_ends_within(s, id, b),
    decreases a,
{
    match lookup(s, id) {
        None => {},
        Some(x) => {
            match x.parent_id {
                None => {},
                Some(p) => {
                    lemma_lineage_fuel(s, p, (a - 1) as nat, (b - 1) as nat);
                },
            }
        },
    }
}

/// Each entry of an ending lineage starts the rest of it: the lineage from
/// the `k`-th entry, with the fuel left, is the lineage from `k` on.
proof fn lemma_lineage_suffix(s: Seq<SnapshotView>, id: Seq<char>, fuel: nat, k: int)
    requires
        chain_ends_within(s, id, fuel),
        0 <= k < lineage_from(s, id, fuel).len(),
    ensures
        k <= fuel,
        chain_ends_within(s, lineage_from(s, id, fuel)[k].id, (fuel - k) as nat),
        lineage_from(s, lineage_from(s, id, fuel)[k].id, (fuel - k) as nat) == lineage_from(s, id, fuel).subrange(
            k,
            lineage_from(s, id, fuel).len() as int,
        ),
    decreases fuel,
{
    let l = lineage_from(s, id, fuel);
    let x = lookup(s, id)->0;
    assert(x.id == id) by {
        assert(s[position(s, id)].id == id);
    }
    if k == 0 {
        assert(l.subrange(0, l.len() as int) =~= l);
    } else {
        let p = x.parent_id->0;
        let rest = lineage_from(s, p, (fuel - 1) as nat);
        assert(l == seq![x] + rest);
        lemma_lineage_suffix(s, p, (fuel - 1) as nat, k - 1);
        assert(rest[k - 1] == l[k]);
        assert(rest.subrange(k - 1, rest.len() as int) =~= l.subrange(k, l.len() as int));
    }
}

/// Where the chain of parents ends, its lineage holds no snapshot twice.
pub proof fn lemma_lineage_distinct(s: Seq<SnapshotView>, id: Seq<char>, fuel: nat)
    requires
        chain_ends_within(s, id, fuel),
    ensures
        forall|i: int, j: int|
            0 <= i < j < lineage_from(s, id, fuel).len() ==> lineage_from(s, id, fuel)[i].id
                != lineage_from(s, id, fuel)[j].id,
{
    let l = lineage_from(s, id, fuel);
    assert forall|i: int, j: int| 0 <= i < j < l.len() implies l[i].id != l[j].id by {
        if l[i].id == l[j].id {
            lemma_lineage_suffix(s, id, fuel, i);
            lemma_lineage_suffix(s, id, fuel, j);
            let x = l[i].id;
            lemma_lineage_fuel(s, x, (fuel - j) as nat, (fuel - i) as nat);
            assert(l.subrange(i, l.len() as int).len() != l.subrange(j, l.len() as int).len());
        }
    }
}

/// Where the chain of parents ends within the fuel, the lineage is the whole
/// chain: empty exactly when the id is not held, and ending at a snapshot
/// without a parent or whose parent the store does not hold.
pub proof fn lemma_lineage_complete(s: Seq<SnapshotView>, id: Seq<char>, fuel: nat)
    requires
        chain_ends_within(s, id, fuel),
    ensures
        ({
            let l = lineage_from(s, id, fuel);
            &&& (l.len() == 0 <==> !has_id(s, id))
            &&& l.len() > 0 ==> (l.last().parent_id is None || !has_id(s, l.last().parent_id->0))
        }),
    decreases fuel,
{
    match lookup(s, id) {
        None => {},
        Some(x) => {
            let l = lineage_from(s, id, fuel);
            match x.parent_id {
                None => {
                    assert(l =~= seq![x]);
                },
                Some(p) => {
                    lemma_lineage_complete(s, p, (fuel - 1) as nat);
                    let rest = lineage_from(s, p, (fuel - 1) as nat);
                    assert(l == seq![x] + rest);
                    if rest.len() > 0 {
                        assert(l.last() == rest.last());
                    } else {
                        assert(l =~= seq![x]);
                    }
                },
            }
        },
    }
}

/// Some snapshot names the id as its parent exactly when a stored snapshot's
/// `parent_id` is the id, whatever its workspace.
pub proof fn lemma_has_children_meaning(s: Seq<SnapshotView>, id: Seq<char>)
    ensures
        has_children(s, id) <==> exists|i: int| 0 <= i < s.len() && s[i].parent_id == Some(id),
        forall|i: int| 0 <= i < s.len() && (#[trigger] s[i]).parent_id == Some(id) ==> has_children(s, id),
{
}

/// Recording a snapshot keeps it in the store, drops only the snapshot it
/// replaces (the one with its id), and adds nothing else.
pub proof fn lemma_store_insert_meaning(s: Seq<SnapshotView>, snap: SnapshotView)
    ensures
        store_insert(s, snap).contains(snap),
        forall|i: int| 0 <= i < s.len() && s[i].id != snap.id ==> store_insert(s, snap).contains(#[trigger] s[i]),
        forall|i: int|
            0 <= i < store_insert(s, snap).len() ==> #[trigger] store_insert(s, snap)[i] == snap || s.contains(
                store_insert(s, snap)[i],
            ),
        store_insert(s, snap).len() == if has_id(s, snap.id) { s.len() } else { s.len() + 1 },
{
    let t = store_insert(s, snap);
    if has_id(s, snap.id) {
        let p = position(s, snap.id);
        assert(t[p] == snap);
        assert forall|i: int| 0 <= i < s.len() && s[i].id != snap.id implies t.contains(#[trigger] s[i]) by {
            assert(t[i] == s[i]);
        }
        assert forall|i: int| 0 <= i < t.len() implies #[trigger] t[i] == snap || s.contains(t[i]) by {
            if i != p {
                assert(t[i] == s[i]);
            }
        }
    } else {
        assert(t[s.len() as int] == snap);
        assert forall|i: int| 0 <= i < s.len() && s[i].id != snap.id implies t.contains(#[trigger] s[i]) by {
            assert(t[i] == s[i]);
        }
        assert forall|i: int| 0 <= i < t.len() implies #[trigger] t[i] == snap || s.contains(t[i]) by {
            if i < s.len() {
                assert(t[i] == s[i]);
            }
        }
    }
}

/// The snapshot found under an id carries that id and is held in the store;
/// an id is found exactly when some held snapshot carries it.
pub proof fn lemma_lookup_meaning(s: Seq<SnapshotView>, id: Seq<char>)
    ensures
        lookup(s, id) is Some <==> exists|i: int| 0 <= i < s.len() && s[i].id == id,
        lookup(s, id) is Some ==> lookup(s, id)->0.id == id && s.contains(lookup(s, id)->0),
{
    if has_id(s, id) {
        let p = position(s, id);
        assert(s[p].id == id);
    }
}

/// A recorded snapshot is found under its id, and every other id finds what
/// it found before; ids stay distinct.
pub proof fn lemma_lookup_after_insert(s: Seq<SnapshotView>, snap: SnapshotView, other: Seq<char>)
    requires
        ids_distinct(s),
    ensures
        ids_distinct(store_insert(s, snap)),
        lookup(store_insert(s, snap), snap.id) == Some(snap),
        other != snap.id ==> lookup(store_insert(s, snap), other) == lookup(s, other),
{
    let t = store_insert(s, snap);
    if has_id(s, snap.id) {
        let p = position(s, snap.id);
        assert(t[p].id == snap.id);
        assert(has_id(t, snap.id));
        let q = position(t, snap.id);
        assert(q == p);
    } else {
        assert(t[s.len() as int].id == snap.id);
        assert(has_id(t, snap.id));
        let q = position(t, snap.id);
        assert(q == s.len());
    }
    if other != snap.id {
        if has_id(s, other) {
            let p = position(s, other);
            assert(t[p] == s[p]);
            assert(has_id(t, other));
            assert(position(t, other) == p);
        } else if has_id(t, other) {
            let q = position(t, other);
            assert(s[q] == t[q]);
        }
    }
}

/// Deleting a snapshot removes its id from the store and keeps what every
/// other id finds; ids stay distinct.
pub proof fn lemma_lookup_after_remove(s: Seq<SnapshotView>, id: Seq<char>, other: Seq<char>)
    requires
        ids_distinct(s),
        has_id(s, id),
    ensures
        ids_distinct(store_remove(s, id)),
        !has_id(store_remove(s, id), id),
        other != id ==> lookup(store_remove(s, id), other) == lookup(s, other),
        store_remove(s, id).len() == s.len() - 1,
{
    let p = position(s, id);
    let t = store_remove(s, id);
    assert forall|a: int| 0 <= a < t.len() implies #[trigger] t[a] == s[if a < p { a } else { a + 1 }] by {
    }
    if has_id(t, id) {
        let q = position(t, id);
        assert(t[q] == s[if q < p { q } else { q + 1 }]);
    }
    if other != id {
        if has_id(s, other) {
            let i = position(s, other);
            let a = if i < p { i } else { i - 1 };
            assert(t[a] == s[i]);
            assert(has_id(t, other));
            let q = position(t, other);
            assert(t[q] == s[if q < p { q } else { q + 1 }]);
        } else if has_id(t, other) {
            let q = position(t, other);
            assert(t[q] == s[if q < p { q } else { q + 1 }]);
        }
    }
}

/// A lineage is a chain of held snapshots: it starts at the snapshot with
/// the id, each entry after the first is the parent of the one before, and
/// it is no longer than the number of links followed.
pub proof fn lemma_lineage_chain(s: Seq<SnapshotView>, id: Seq<char>, fuel: nat)
    ensures
        ({
            let l = lineage_from(s, id, fuel);
            &&& l.len() <= fuel
            &&& l.len() > 0 ==> lookup(s, id) == Some(l[0])
            &&& (fuel > 0 && has_id(s, id)) ==> l.len() > 0
            &&& forall|i: int| 0 <= i < l.len() ==> lookup(s, #[trigger] l[i].id) == Some(l[i])
            &&& forall|i: int| 0 <= i < l.len() - 1 ==> (#[trigger] l[i]).parent_id == Some(l[i + 1].id)
        }),
    decreases fuel,
{
    if fuel > 0 {
        match lookup(s, id) {
            None => {},
            Some(x) => {
                let l = lineage_from(s, id, fuel);
                assert(x.id == id) by {
                    assert(s[position(s, id)].id == id);
                }
                match x.parent_id {
                    Some(p) => {
                        let rest = lineage_from(s, p, (fuel - 1) as nat);
                        lemma_lineage_chain(s, p, (fuel - 1) as nat);
                        assert(l == seq![x] + rest);
                        assert forall|i: int| 0 <= i < l.len() implies lookup(s, #[trigger] l[i].id)
                            == Some(l[i]) by {
                            if i > 0 {
                                assert(l[i] == rest[i - 1]);
                            }
                        }
                        assert forall|i: int| 0 <= i < l.len() - 1 implies (#[trigger] l[i]).parent_id
                            == Some(l[i + 1].id) by {
                            if i > 0 {
                                assert(l[i] == rest[i - 1]);
                                assert(l[i + 1] == rest[i]);
                            } else {
                                assert(l[1] == rest[0]);
                            }
                        }
                    },
                    None => {
                        assert(l =~= seq![x]);
                    },
                }
            },
        }
    }
}

/// The snapshots listed for a workspace are exactly the held snapshots of
/// that workspace.
pub proof fn lemma_in_workspace(s: Seq<SnapshotView>, workspace_id: Seq<char>)
    ensures
        forall|i: int| 0 <= i < in_workspace(s, workspace_id).len() ==> (#[trigger] in_workspace(
            s,
            workspace_id,
        )[i]).workspace_id == workspace_id && s.contains(in_workspace(s, workspace_id)[i]),
        forall|i: int| 0 <= i < s.len() && (#[trigger] s[i]).workspace_id == workspace_id ==> in_workspace(
            s,
            workspace_id,
        ).contains(s[i]),
{
    let pred = |x: SnapshotView| x.workspace_id == workspace_id;
    broadcast use vstd::seq_lib::group_filter_ensures;
    assert forall|i: int| 0 <= i < s.filter(pred).len() implies s.contains(#[trigger] s.filter(pred)[i]) by {
        s.lemma_filter_contains_rev(pred, s.filter(pred)[i]);
    }
    assert forall|i: int| 0 <= i < s.len() && (#[trigger] s[i]).workspace_id == workspace_id implies s.filter(
        pred,
    ).contains(s[i]) by {
        s.lemma_filter_contains(pred, i);
    }
}

} // verus!
