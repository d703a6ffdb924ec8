//! Payload resolution: definition fields, ordered patch operations, and the
//! immutable overlay that always wins.
//!
//! A payload is modelled as a set of scalar fields keyed by name. Resolution
//! starts from the declared definition, applies the patch list in order, and
//! overlays the immutable fields last, so protected fields keep their value
//! regardless of patches or definition edits. The pipeline is deterministic
//! and idempotent; see [`lemma_resolve_idempotent`].

use vstd::prelude::*;

verus! {

/// A payload: an association list of scalar fields keyed by name, with
/// pairwise-distinct keys. Its mathematical view is the map from key
/// characters to value characters.
pub struct Payload {
    fields: Vec<(String, String)>,
}

/// The map a field list denotes; a later entry for the same key wins.
pub open spec fn entries_map(s: Seq<(String, String)>) -> Map<Seq<char>, Seq<char>>
    decreases s.len(),
{
    if s.len() == 0 {
        Map::empty()
    } else {
        entries_map(s.drop_last()).insert(s.last().0@, s.last().1@)
    }
}

/// All keys of the field list are pairwise distinct.
pub open spec fn unique_keys(s: Seq<(String, String)>) -> bool {
    forall|i: int, j: int| 0 <= i < j < s.len() ==> s[i].0@ != s[j].0@
}

impl View for Payload {
    type V = Map<Seq<char>, Seq<char>>;

    closed spec fn view(&self) -> Map<Seq<char>, Seq<char>> {
        entries_map(self.fields@)
    }
}

/// A key occurs in the field list.
pub open spec fn has_key(s: Seq<(String, String)>, k: Seq<char>) -> bool {
    exists|i: int| 0 <= i < s.len() && s[i].0@ == k
}

/// The domain of the denoted map is exactly the set of listed keys.
proof fn lemma_entries_dom(s: Seq<(String, String)>, k: Seq<char>)
    ensures
        entries_map(s).dom().contains(k) == has_key(s, k),
    decreases s.len(),
{
    if s.len() == 0 {
    } else {
        lemma_entries_dom(s.drop_last(), k);
        if s.last().0@ == k {
            assert(s[s.len() - 1].0@ == k);
        } else {
            if has_key(s.drop_last(), k) {
                let i = choose|i: int| 0 <= i < s.drop_last().len() && s.drop_last()[i].0@ == k;
                assert(s[i].0@ == k);
            }
            if has_key(s, k) {
                let i = choose|i: int| 0 <= i < s.len() && s[i].0@ == k;
                assert(i < s.len() - 1);
                assert(s.drop_last()[i].0@ == k);
            }
        }
    }
}

/// Under distinct keys, the denoted map sends each listed key to its value.
proof fn lemma_entries_get(s: Seq<(String, String)>, i: int)
    requires
        unique_keys(s),
        0 <= i < s.len(),
    ensures
        entries_map(s).dom().contains(s[i].0@),
        entries_map(s)[s[i].0@] == s[i].1@,
    decreases s.len(),
{
    if i == s.len() - 1 {
    } else {
        assert(s.drop_last()[i] == s[i]);
        assert(unique_keys(s.drop_last())) by {
            assert(forall|x: int, y: int|
                0 <= x < y < s.drop_last().len() ==> s.drop_last()[x] == s[x] && s.drop_last()[y]
                    == s[y]);
        }
        lemma_entries_get(s.drop_last(), i);
        assert(s[i].0@ != s.last().0@);
    }
}

/// Replacing the value at a listed key updates the map at that key alone.
proof fn lemma_entries_update(s: Seq<(String, String)>, i: int, p: (String, String))
    requires
        unique_keys(s),
        0 <= i < s.len(),
        p.0@ == s[i].0@,
    ensures
        entries_map(s.update(i, p)) == entries_map(s).insert(p.0@, p.1@),
    decreases s.len(),
{
    let su = s.update(i, p);
    if i == s.len() - 1 {
        assert(su.drop_last() =~= s.drop_last());
        assert(su.last() == p);
        assert(entries_map(su) == entries_map(s.drop_last()).insert(p.0@, p.1@));
        assert(entries_map(s.drop_last()).insert(p.0@, p.1@) =~= entries_map(s.drop_last()).insert(
            s.last().0@,
            s.last().1@,
        ).insert(p.0@, p.1@));
    } else {
        assert(unique_keys(s.drop_last())) by {
            assert(forall|x: int, y: int|
                0 <= x < y < s.drop_last().len() ==> s.drop_last()[x] == s[x] && s.drop_last()[y]
                    == s[y]);
        }
        assert(s.drop_last()[i] == s[i]);
        lemma_entries_update(s.drop_last(), i, p);
        assert(su.drop_last() =~= s.drop_last().update(i, p));
        assert(su.last() == s.last());
        assert(p.0@ != s.last().0@);
        assert(entries_map(s.drop_last()).insert(p.0@, p.1@).insert(s.last().0@, s.last().1@)
            =~= entries_map(s.drop_last()).insert(s.last().0@, s.last().1@).insert(p.0@, p.1@));
    }
}

/// Appending a fresh key inserts it into the map.
proof fn lemma_entries_push(s: Seq<(String, String)>, p: (String, String))
    ensures
        entries_map(s.push(p)) == entries_map(s).insert(p.0@, p.1@),
{
    assert(s.push(p).drop_last() =~= s);
    assert(s.push(p).last() == p);
}

/// Removing a listed key removes it from the map.
proof fn lemma_entries_remove(s: Seq<(String, String)>, i: int)
    requires
        unique_keys(s),
        0 <= i < s.len(),
    ensures
        entries_map(s.remove(i)) == entries_map(s).remove(s[i].0@),
    decreases s.len(),
{
    let k = s[i].0@;
    let sr = s.remove(i);
    if i == s.len() - 1 {
        assert(sr =~= s.drop_last());
        lemma_entries_dom(s.drop_last(), k);
        assert(!has_key(s.drop_last(), k)) by {
            if has_key(s.drop_last(), k) {
                let j = choose|j: int|
                    0 <= j < s.drop_last().len() && s.drop_last()[j].0@ == k;
                assert(s[j].0@ == k);
            }
        }
        assert(entries_map(s).remove(k) =~= entries_map(s.drop_last()));
    } else {
        assert(unique_keys(s.drop_last())) by {
            assert(forall|x: int, y: int|
                0 <= x < y < s.drop_last().len() ==> s.drop_last()[x] == s[x] && s.drop_last()[y]
                    == s[y]);
        }
        assert(s.drop_last()[i] == s[i]);
        lemma_entries_remove(s.drop_last(), i);
        assert(sr.drop_last() =~= s.drop_last().remove(i));
        assert(sr.last() == s.last());
        assert(k != s.last().0@);
        assert(entries_map(s.drop_last()).remove(k).insert(s.last().0@, s.last().1@)
            =~= entries_map(s.drop_last()).insert(s.last().0@, s.last().1@).remove(k));
    }
}

impl Payload {
    /// Distinct keys: the representation invariant.
    pub closed spec fn wf(&self) -> bool {
        unique_keys(self.fields@)
    }

    /// The empty payload.
    pub fn empty() -> (r: Payload)
        ensures
            r.wf(),
            r@ == Map::<Seq<char>, Seq<char>>::empty(),
    {
        Payload { fields: Vec::new() }
    }

    /// An independent payload with the same fields.
    pub fn duplicate(&self) -> (r: Payload)
        requires
            self.wf(),
        ensures
            r.wf(),
            r@ == self@,
    {
        let mut fields: Vec<(String, String)> = Vec::new();
        let n = self.fields.len();
        for i in 0..n
            invariant
                n == self.fields.len(),
                fields@.len() == i,
                forall|j: int| 0 <= j < i ==> fields@[j] == self.fields@[j],
        {
            let p = &self.fields[i];
            fields.push((p.0.clone(), p.1.clone()));
        }
        assert(fields@ =~= self.fields@);
        Payload { fields }
    }

    /// The fields as plain pairs, for callers that serialize the payload.
    pub fn to_pairs(&self) -> (r: Vec<(String, String)>)
        requires
            self.wf(),
        ensures
            unique_keys(r@),
            entries_map(r@) == self@,
    {
        let mut pairs: Vec<(String, String)> = Vec::new();
        let n = self.fields.len();
        for i in 0..n
            invariant
                n == self.fields.len(),
                pairs@.len() == i,
                forall|j: int| 0 <= j < i ==> pairs@[j] == self.fields@[j],
        {
            let p = &self.fields[i];
            pairs.push((p.0.clone(), p.1.clone()));
        }
        assert(pairs@ =~= self.fields@);
        pairs
    }

    /// The value of a field, if it is set.
    pub fn get_field(&self, key: &String) -> (r: Option<&String>)
        requires
            self.wf(),
        ensures
            match r {
                Some(v) => self@.dom().contains(key@) && self@[key@] == v@,
                None => !self@.dom().contains(key@),
            },
    {
        let n = self.fields.len();
        for i in 0..n
            invariant
                n == self.fields.len(),
                self.wf(),
                forall|j: int| 0 <= j < i ==> self.fields@[j].0@ != key@,
        {
            let p = &self.fields[i];
            if p.0 == *key {
                proof {
                    lemma_entries_get(self.fields@, i as int);
                }
                return Some(&p.1);
            }
        }
        proof {
            lemma_entries_dom(self.fields@, key@);
        }
        None
    }

    /// Set a field, replacing any prior value under the same key.
    pub fn set_field(&mut self, key: &String, value: String)
        requires
            old(self).wf(),
        ensures
            final(self).wf(),
            final(self)@ == old(self)@.insert(key@, value@),
    {
        let n = self.fields.len();
        for i in 0..n
            invariant
                n == self.fields.len(),
                self.wf(),
                self.fields@ == old(self).fields@,
                forall|j: int| 0 <= j < i ==> self.fields@[j].0@ != key@,
        {
            let hit = self.fields[i].0 == *key;
            if hit {
                let ghost s = self.fields@;
                let p = (key.clone(), value);
                proof {
                    lemma_entries_update(s, i as int, p);
                }
                self.fields[i] = p;
                assert forall|x: int, y: int|
                    0 <= x < y < self.fields@.len() implies self.fields@[x].0@
                    != self.fields@[y].0@ by {
                    assert(self.fields@[x].0@ == s[x].0@);
                    assert(self.fields@[y].0@ == s[y].0@);
                }
                return ;
            }
        }
        let ghost s = self.fields@;
        let p = (key.clone(), value);
        proof {
            lemma_entries_push(s, p);
        }
        self.fields.push(p);
        assert forall|x: int, y: int|
            0 <= x < y < self.fields@.len() implies self.fields@[x].0@ != self.fields@[y].0@ by {
            assert(self.fields@[x] == s[x]);
            if y < s.len() {
                assert(self.fields@[y] == s[y]);
            } else {
                assert(self.fields@[y] == p);
            }
        }
    }

    /// Remove a field; reports whether it was present.
    pub fn remove_field(&mut self, key: &String) -> (removed: bool)
        requires
            old(self).wf(),
        ensures
            final(self).wf(),
            final(self)@ == old(self)@.remove(key@),
            removed == old(self)@.dom().contains(key@),
    {
        let n = self.fields.len();
        for i in 0..n
            invariant
                n == self.fields.len(),
                self.wf(),
                self.fields@ == old(self).fields@,
                forall|j: int| 0 <= j < i ==> self.fields@[j].0@ != key@,
        {
            let hit = self.fields[i].0 == *key;
            if hit {
                let ghost s = self.fields@;
                proof {
                    lemma_entries_get(s, i as int);
                    lemma_entries_remove(s, i as int);
                }
                self.fields.remove(i);
                assert forall|x: int, y: int|
                    0 <= x < y < self.fields@.len() implies self.fields@[x].0@
                    != self.fields@[y].0@ by {
                    let a: int = if x < i as int {
                        x
                    } else {
                        x + 1
                    };
                    let b: int = if y < i as int {
                        y
                    } else {
                        y + 1
                    };
                    assert(self.fields@[x] == s[a]);
                    assert(self.fields@[y] == s[b]);
                }
                return true;
            }
        }
        proof {
            lemma_entries_dom(self.fields@, key@);
            assert(self@.remove(key@) =~= self@);
        }
        false
    }
}


/// One patch operation: set a field to a value, or remove it.
pub enum PatchOp {
    Assign { key: String, value: String },
    Remove { key: String },
}

/// What one patch operation does to a payload map.
pub open spec fn apply_op_model(m: Map<Seq<char>, Seq<char>>, op: PatchOp) -> Map<
    Seq<char>,
    Seq<char>,
> {
    match op {
        PatchOp::Assign { key, value } => m.insert(key@, value@),
        PatchOp::Remove { key } => m.remove(key@),
    }
}

/// The patch list applied in order, first to last.
pub open spec fn apply_ops_model(m: Map<Seq<char>, Seq<char>>, ops: Seq<PatchOp>) -> Map<
    Seq<char>,
    Seq<char>,
>
    decreases ops.len(),
{
    if ops.len() == 0 {
        m
    } else {
        apply_op_model(apply_ops_model(m, ops.drop_last()), ops.last())
    }
}

/// The immutable overlay applied in order: every overlay field is set last.
pub open spec fn apply_overlay_model(
    m: Map<Seq<char>, Seq<char>>,
    ov: Seq<(String, String)>,
) -> Map<Seq<char>, Seq<char>>
    decreases ov.len(),
{
    if ov.len() == 0 {
        m
    } else {
        apply_overlay_model(m, ov.drop_last()).insert(ov.last().0@, ov.last().1@)
    }
}

/// The full resolution pipeline: definition, then patches, then overlay.
pub open spec fn resolve_model(
    def: Map<Seq<char>, Seq<char>>,
    ops: Seq<PatchOp>,
    ov: Seq<(String, String)>,
) -> Map<Seq<char>, Seq<char>> {
    apply_overlay_model(apply_ops_model(def, ops), ov)
}

impl Payload {
    /// Apply one patch operation.
    pub fn apply_patch(&mut self, op: &PatchOp)
        requires
            old(self).wf(),
        ensures
            final(self).wf(),
            final(self)@ == apply_op_model(old(self)@, *op),
    {
        match op {
            PatchOp::Assign { key, value } => self.set_field(key, value.clone()),
            PatchOp::Remove { key } => {
                self.remove_field(key);
            },
        }
    }

    /// Apply a patch list in order, first to last.
    pub fn apply_patches(&mut self, ops: &Vec<PatchOp>)
        requires
            old(self).wf(),
        ensures
            final(self).wf(),
            final(self)@ == apply_ops_model(old(self)@, ops@),
    {
        let n = ops.len();
        for i in 0..n
            invariant
                n == ops.len(),
                self.wf(),
                self@ == apply_ops_model(old(self)@, ops@.take(i as int)),
        {
            self.apply_patch(&ops[i]);
            proof {
                assert(ops@.take(i as int + 1).drop_last() =~= ops@.take(i as int));
                assert(ops@.take(i as int + 1).last() == ops@[i as int]);
            }
        }
        proof {
            assert(ops@.take(n as int) =~= ops@);
        }
    }

    /// Overlay the immutable fields, in order.
    pub fn apply_overlay(&mut self, overlay: &Vec<(String, String)>)
        requires
            old(self).wf(),
        ensures
            final(self).wf(),
            final(self)@ == apply_overlay_model(old(self)@, overlay@),
    {
        let n = overlay.len();
        for i in 0..n
            invariant
                n == overlay.len(),
                self.wf(),
                self@ == apply_overlay_model(old(self)@, overlay@.take(i as int)),
        {
            let p = &overlay[i];
            self.set_field(&p.0, p.1.clone());
            proof {
                assert(overlay@.take(i as int + 1).drop_last() =~= overlay@.take(i as int));
                assert(overlay@.take(i as int + 1).last() == overlay@[i as int]);
            }
        }
        proof {
            assert(overlay@.take(n as int) =~= overlay@);
        }
    }
}

/// Resolve a declared payload: start from the definition, apply the patch
/// list in order, then overlay the immutable fields so they always win.
pub fn resolve(definition: &Payload, patches: &Vec<PatchOp>, overlay: &Vec<(String, String)>) -> (r:
    Payload)
    requires
        definition.wf(),
    ensures
        r.wf(),
        r@ == resolve_model(definition@, patches@, overlay@),
{
    let mut r = definition.duplicate();
    r.apply_patches(patches);
    r.apply_overlay(overlay);
    r
}

/// An operation decides the binding at key `k`.
pub open spec fn op_touches(op: PatchOp, k: Seq<char>) -> bool {
    match op {
        PatchOp::Assign { key, .. } => key@ == k,
        PatchOp::Remove { key } => key@ == k,
    }
}

/// Some operation of the list decides the binding at key `k`.
pub open spec fn ops_touch(ops: Seq<PatchOp>, k: Seq<char>) -> bool {
    exists|i: int| 0 <= i < ops.len() && #[trigger] op_touches(ops[i], k)
}

/// Some overlay field is keyed by `k`.
pub open spec fn overlay_touches(ov: Seq<(String, String)>, k: Seq<char>) -> bool {
    exists|i: int| 0 <= i < ov.len() && #[trigger] ov[i].0@ == k
}

/// Two maps agree at one key.
pub open spec fn agree_at(
    m1: Map<Seq<char>, Seq<char>>,
    m2: Map<Seq<char>, Seq<char>>,
    k: Seq<char>,
) -> bool {
    m1.dom().contains(k) == m2.dom().contains(k) && (m1.dom().contains(k) ==> m1[k] == m2[k])
}

/// A patch list leaves the binding of every key it does not touch alone.
proof fn lemma_ops_untouched(m: Map<Seq<char>, Seq<char>>, ops: Seq<PatchOp>, k: Seq<char>)
    requires
        !ops_touch(ops, k),
    ensures
        agree_at(apply_ops_model(m, ops), m, k),
    decreases ops.len(),
{
    if ops.len() > 0 {
        assert(!ops_touch(ops.drop_last(), k)) by {
            if ops_touch(ops.drop_last(), k) {
                let i = choose|i: int|
                    0 <= i < ops.drop_last().len() && #[trigger] op_touches(ops.drop_last()[i], k);
                assert(op_touches(ops[i], k));
            }
        }
        lemma_ops_untouched(m, ops.drop_last(), k);
        assert(!op_touches(ops[ops.len() - 1], k));
    }
}

/// The bindings a patch list does touch do not depend on the starting map.
proof fn lemma_ops_touched(
    m1: Map<Seq<char>, Seq<char>>,
    m2: Map<Seq<char>, Seq<char>>,
    ops: Seq<PatchOp>,
    k: Seq<char>,
)
    requires
        ops_touch(ops, k),
    ensures
        agree_at(apply_ops_model(m1, ops), apply_ops_model(m2, ops), k),
    decreases ops.len(),
{
    if op_touches(ops.last(), k) {
    } else {
        assert(!op_touches(ops[ops.len() - 1], k));
        assert(ops_touch(ops.drop_last(), k)) by {
            let i = choose|i: int| 0 <= i < ops.len() && #[trigger] op_touches(ops[i], k);
            assert(i < ops.len() - 1);
            assert(op_touches(ops.drop_last()[i], k));
        }
        lemma_ops_touched(m1, m2, ops.drop_last(), k);
    }
}

/// The overlay leaves the binding of every key it does not hold alone.
proof fn lemma_overlay_untouched(m: Map<Seq<char>, Seq<char>>, ov: Seq<(String, String)>, k: Seq<char>)
    requires
        !overlay_touches(ov, k),
    ensures
        agree_at(apply_overlay_model(m, ov), m, k),
    decreases ov.len(),
{
    if ov.len() > 0 {
        assert(!overlay_touches(ov.drop_last(), k)) by {
            if overlay_touches(ov.drop_last(), k) {
                let i = choose|i: int|
                    0 <= i < ov.drop_last().len() && #[trigger] ov.drop_last()[i].0@ == k;
                assert(ov[i].0@ == k);
            }
        }
        lemma_overlay_untouched(m, ov.drop_last(), k);
        assert(!(ov[ov.len() - 1].0@ == k));
    }
}

/// The bindings the overlay holds do not depend on the starting map.
proof fn lemma_overlay_touched(
    m1: Map<Seq<char>, Seq<char>>,
    m2: Map<Seq<char>, Seq<char>>,
    ov: Seq<(String, String)>,
    k: Seq<char>,
)
    requires
        overlay_touches(ov, k),
    ensures
        agree_at(apply_overlay_model(m1, ov), apply_overlay_model(m2, ov), k),
    decreases ov.len(),
{
    if ov.last().0@ == k {
    } else {
        assert(!(ov[ov.len() - 1].0@ == k));
        assert(overlay_touches(ov.drop_last(), k)) by {
            let i = choose|i: int| 0 <= i < ov.len() && #[trigger] ov[i].0@ == k;
            assert(i < ov.len() - 1);
            assert(ov.drop_last()[i].0@ == k);
        }
        lemma_overlay_touched(m1, m2, ov.drop_last(), k);
    }
}

/// Resolution is deterministic: equal inputs resolve to the equal payload.
pub proof fn lemma_resolve_deterministic(
    d1: Map<Seq<char>, Seq<char>>,
    d2: Map<Seq<char>, Seq<char>>,
    ops: Seq<PatchOp>,
    ov: Seq<(String, String)>,
)
    requires
        d1 == d2,
    ensures
        resolve_model(d1, ops, ov) == resolve_model(d2, ops, ov),
{
}

/// Resolution is idempotent: running the patch-and-overlay pipeline on its
/// own output, with the same patch list and overlay, changes nothing.
pub proof fn lemma_resolve_idempotent(
    def: Map<Seq<char>, Seq<char>>,
    ops: Seq<PatchOp>,
    ov: Seq<(String, String)>,
)
    ensures
        resolve_model(resolve_model(def, ops, ov), ops, ov) == resolve_model(def, ops, ov),
{
    let r = resolve_model(def, ops, ov);
    let lhs = resolve_model(r, ops, ov);
    assert forall|k: Seq<char>| #[trigger] agree_at(lhs, r, k) by {
        if overlay_touches(ov, k) {
            lemma_overlay_touched(apply_ops_model(r, ops), apply_ops_model(def, ops), ov, k);
        } else {
            lemma_overlay_untouched(apply_ops_model(r, ops), ov, k);
            lemma_overlay_untouched(apply_ops_model(def, ops), ov, k);
            if ops_touch(ops, k) {
                lemma_ops_touched(r, def, ops, k);
            } else {
                lemma_ops_untouched(r, ops, k);
                lemma_ops_untouched(def, ops, k);
            }
        }
    }
    assert forall|k: Seq<char>| lhs.dom().contains(k) == r.dom().contains(k) by {
        assert(agree_at(lhs, r, k));
    }
    assert(lhs.dom() =~= r.dom());
    assert forall|k: Seq<char>| lhs.dom().contains(k) implies lhs[k] == r[k] by {
        assert(agree_at(lhs, r, k));
    }
    assert(lhs =~= r);
}

} // verus!
