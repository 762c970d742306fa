//! Game versions known to the launcher: built-in ones, ones saved in the
//! application's data and ones imported from the older OpenFusionClient.
use vstd::prelude::*;
use std::collections::HashMap;
use crate::ids::{hyphenated, uuid_string, Uuid};
use crate::text::chars_of;
use crate::seqs::{first_index, lemma_first_index, lemma_first_index_at, lemma_first_index_none};

verus! {

/// What the launcher reads of a game version's manifest: its UUID, its name
/// (if it has one) and the URL its assets are served from.
#[derive(Debug)]
pub struct Version {
    pub uuid: Uuid,
    pub name: Option<String>,
    pub asset_url: String,
}

/// A copy of an optional string, equal to it.
pub fn clone_opt_string(o: &Option<String>) -> (r: Option<String>)
    ensures
        r == *o,
{
    match o {
        Some(s) => Some(s.clone()),
        None => None,
    }
}

impl Clone for Version {
    fn clone(&self) -> (r: Self)
        ensures
            r == *self,
    {
        Version { uuid: self.uuid, name: clone_opt_string(&self.name), asset_url: self.asset_url.clone() }
    }
}

/// The name shown for a version: its name, or else its UUID in hyphenated form.
pub open spec fn version_name(v: Version) -> Seq<char> {
    match v.name {
        Some(n) => n@,
        None => hyphenated(v.uuid),
    }
}

/// The name shown for a version: its name, or else its UUID in hyphenated form.
pub fn get_version_name(version: &Version) -> (res: String)
    ensures
        res@ == version_name(*version),
{
    match &version.name {
        Some(n) => n.clone(),
        None => uuid_string(version.uuid),
    }
}

/// Whether `v` has the UUID or the asset URL of a version in `a`.
pub open spec fn clashes_with(a: Seq<Version>, v: Version) -> bool {
    exists|k: int| 0 <= k < a.len() && (a[k].uuid == v.uuid || a[k].asset_url@ == v.asset_url@)
}

/// The versions of `b` that `a` has neither by UUID nor by asset URL, in order.
pub open spec fn merge_candidates(a: Seq<Version>, b: Seq<Version>) -> Seq<Version>
    decreases b.len(),
{
    if b.len() == 0 {
        Seq::empty()
    } else {
        let r = merge_candidates(a, b.drop_last());
        if clashes_with(a, b.last()) {
            r
        } else {
            r.push(b.last())
        }
    }
}

fn clashes(a: &[Version], v: &Version) -> (res: bool)
    ensures
        res == clashes_with(a@, *v),
{
    let mut k: usize = 0;
    while k < a.len()
        invariant
            k <= a.len(),
            forall|m: int| 0 <= m < k ==> !(a@[m].uuid == v.uuid || a@[m].asset_url@ == v.asset_url@),
        decreases a.len() - k,
    {
        if a[k].uuid == v.uuid || a[k].asset_url == v.asset_url {
            return true;
        }
        k = k + 1;
    }
    false
}

impl Versions {
    /// The versions of `b` to add to `a`: those whose UUID and asset URL
    /// both differ from every version of `a`, in their order in `b`.
    pub fn calculate_merge(a: &[Version], b: Vec<Version>) -> (to_merge: Vec<Version>)
        ensures
            to_merge@ == merge_candidates(a@, b@),
    {
        let mut to_merge: Vec<Version> = Vec::new();
        let mut k: usize = 0;
        while k < b.len()
            invariant
                k <= b.len(),
                to_merge@ == merge_candidates(a@, b@.take(k as int)),
            decreases b.len() - k,
        {
            assert(b@.take(k + 1).drop_last() =~= b@.take(k as int));
            if !clashes(a, &b[k]) {
                to_merge.push(b[k].clone());
            }
            k = k + 1;
        }
        assert(b@.take(k as int) =~= b@);
        to_merge
    }
}

/// The versions the launcher knows, and the file each was read from.
#[derive(Debug)]
pub struct Versions {
    pub versions: Vec<Version>,
    pub filenames: HashMap<Uuid, String>,
}

/// The versions of `vs` whose UUID is not `uuid`, in order.
pub open spec fn without_version(vs: Seq<Version>, uuid: Uuid) -> Seq<Version>
    decreases vs.len(),
{
    if vs.len() == 0 {
        Seq::empty()
    } else {
        let r = without_version(vs.drop_last(), uuid);
        if vs.last().uuid == uuid {
            r
        } else {
            r.push(vs.last())
        }
    }
}

/// Whether `v` has UUID `uuid`.
pub open spec fn has_uuid(uuid: Uuid) -> spec_fn(Version) -> bool {
    |v: Version| v.uuid == uuid
}

/// Whether `v` is named `name`.
pub open spec fn is_named(name: Seq<char>) -> spec_fn(Version) -> bool {
    |v: Version| v.name matches Some(n) && n@ == name
}

impl Versions {
    /// No versions and no file names.
    pub fn new_empty() -> (r: Self)
        ensures
            r.versions@.len() == 0,
            r.filenames@ == Map::<Uuid, String>::empty(),
    {
        Versions { versions: Vec::new(), filenames: HashMap::new() }
    }

    /// Adds `version` at the end.
    pub fn add_entry(&mut self, version: Version)
        ensures
            final(self).versions@ == old(self).versions@.push(version),
            final(self).filenames == old(self).filenames,
    {
        self.versions.push(version);
    }

    /// Drops every version whose UUID is `uuid`; the others keep their order.
    pub fn remove_entry(&mut self, uuid: Uuid)
        ensures
            final(self).versions@ == without_version(old(self).versions@, uuid),
            final(self).filenames == old(self).filenames,
    {
        let ghost orig = self.versions@;
        let ghost mut j: int = 0;
        let mut i: usize = 0;
        assert(orig.skip(0) =~= orig);
        assert(without_version(orig.take(0), uuid) =~= Seq::<Version>::empty());
        while i < self.versions.len()
            invariant
                0 <= j <= orig.len(),
                self.versions@ == without_version(orig.take(j), uuid) + orig.skip(j),
                i == without_version(orig.take(j), uuid).len(),
                self.filenames == old(self).filenames,
            decreases self.versions.len() - i,
        {
            assert(orig.take(j + 1).drop_last() =~= orig.take(j));
            assert(self.versions@[i as int] == orig[j]);
            if self.versions[i].uuid == uuid {
                let ghost before = self.versions@;
                self.versions.remove(i);
                assert(self.versions@ =~= without_version(orig.take(j + 1), uuid) + orig.skip(j + 1));
            } else {
                assert(self.versions@ =~= without_version(orig.take(j + 1), uuid) + orig.skip(j + 1));
                i = i + 1;
            }
            proof {
                j = j + 1;
            }
        }
        proof {
            if j < orig.len() {
                assert(self.versions@.len() > i);
            }
            assert(orig.take(j) =~= orig);
            assert(self.versions@ =~= without_version(orig, uuid));
        }
    }

    /// The first version whose UUID is `uuid`.
    pub fn get_entry(&self, uuid: Uuid) -> (res: Option<&Version>)
        ensures
            match first_index(self.versions@, has_uuid(uuid)) {
                Some(k) => res == Some(&self.versions@[k]),
                None => res is None,
            },
    {
        let mut k: usize = 0;
        while k < self.versions.len()
            invariant
                k <= self.versions.len(),
                forall|m: int| 0 <= m < k ==> self.versions@[m].uuid != uuid,
            decreases self.versions.len() - k,
        {
            if self.versions[k].uuid == uuid {
                proof {
                    lemma_first_index_at(self.versions@, has_uuid(uuid), k as int);
                }
                return Some(&self.versions[k]);
            }
            k = k + 1;
        }
        proof {
            lemma_first_index_none(self.versions@, has_uuid(uuid));
        }
        None
    }

    /// The first version whose name is `name`.
    pub fn get_entry_by_name(&self, name: &str) -> (res: Option<&Version>)
        ensures
            match first_index(self.versions@, is_named(name@)) {
                Some(k) => res == Some(&self.versions@[k]),
                None => res is None,
            },
    {
        let ghost p = is_named(name@);
        let mut k: usize = 0;
        while k < self.versions.len()
            invariant
                k <= self.versions.len(),
                p == is_named(name@),
                forall|m: int| 0 <= m < k ==> !p(self.versions@[m]),
            decreases self.versions.len() - k,
        {
            let v = &self.versions[k];
            let hit = match &v.name {
                Some(n) => string_eq_str(n, name),
                None => false,
            };
            assert(hit == p(*v));
            if hit {
                proof {
                    lemma_first_index_at(self.versions@, p, k as int);
                }
                return Some(&self.versions[k]);
            }
            k = k + 1;
        }
        proof {
            lemma_first_index_none(self.versions@, p);
        }
        None
    }

    /// The file each version was read from, by UUID.
    pub fn get_file_names(&self) -> (res: &HashMap<Uuid, String>)
        ensures
            res == &self.filenames,
    {
        &self.filenames
    }
}

/// Whether `a` and `b` hold the same characters.
pub fn string_eq_str(a: &String, b: &str) -> (res: bool)
    ensures
        res == (a@ == b@),
{
    let x = chars_of(a.as_str());
    let y = chars_of(b);
    if x.len() != y.len() {
        assert(x@.len() != y@.len());
        return false;
    }
    let mut k: usize = 0;
    while k < x.len()
        invariant
            k <= x.len() == y.len(),
            x@ == a@,
            y@ == b@,
            forall|m: int| 0 <= m < k ==> x@[m] == y@[m],
        decreases x.len() - k,
    {
        if x[k] != y[k] {
            assert(x@[k as int] != y@[k as int]);
            return false;
        }
        k = k + 1;
    }
    assert(x@ =~= y@);
    true
}

/// Every version picked for merging comes from `b` and has neither the UUID
/// nor the asset URL of a version of `a`; every version of `b` that has
/// neither is picked.
pub proof fn lemma_merge_candidates(a: Seq<Version>, b: Seq<Version>)
    ensures
        forall|k: int| 0 <= k < merge_candidates(a, b).len() ==> b.contains(#[trigger] merge_candidates(a, b)[k])
            && !clashes_with(a, merge_candidates(a, b)[k]),
        forall|k: int| 0 <= k < b.len() && !clashes_with(a, #[trigger] b[k]) ==> merge_candidates(a, b).contains(b[k]),
    decreases b.len(),
{
    if b.len() > 0 {
        lemma_merge_candidates(a, b.drop_last());
        let r = merge_candidates(a, b.drop_last());
        let m = merge_candidates(a, b);
        assert forall|k: int| 0 <= k < m.len() implies b.contains(#[trigger] m[k]) && !clashes_with(a, m[k]) by {
            if k < r.len() {
                assert(m[k] == r[k]);
                let j = choose|j: int| 0 <= j < b.drop_last().len() && b.drop_last()[j] == r[k];
                assert(b[j] == r[k]);
            } else {
                assert(m[k] == b.last());
                assert(b[b.len() - 1] == b.last());
            }
        }
        assert forall|k: int| 0 <= k < b.len() && !clashes_with(a, #[trigger] b[k]) implies m.contains(b[k]) by {
            if k < b.len() - 1 {
                assert(b.drop_last()[k] == b[k]);
                let j = choose|j: int| 0 <= j < r.len() && r[j] == b[k];
                assert(m[j] == r[j]);
            } else {
                assert(m[m.len() - 1] == b[k]);
            }
        }
    }
}

/// Versions that all clash with `a` give no merge candidates.
proof fn lemma_merge_candidates_none(a: Seq<Version>, b: Seq<Version>)
    requires
        forall|k: int| 0 <= k < b.len() ==> clashes_with(a, #[trigger] b[k]),
    ensures
        merge_candidates(a, b) == Seq::<Version>::empty(),
    decreases b.len(),
{
    if b.len() > 0 {
        assert forall|k: int| 0 <= k < b.drop_last().len() implies clashes_with(a, #[trigger] b.drop_last()[k]) by {
            assert(b.drop_last()[k] == b[k]);
        }
        lemma_merge_candidates_none(a, b.drop_last());
        assert(clashes_with(a, b[b.len() - 1]));
    }
}

/// Once the picked versions are added, picking from the same versions again
/// finds nothing: importing twice imports nothing the second time.
pub proof fn lemma_merge_twice_adds_nothing(a: Seq<Version>, b: Seq<Version>)
    ensures
        merge_candidates(a + merge_candidates(a, b), b) == Seq::<Version>::empty(),
{
    let m = merge_candidates(a, b);
    lemma_merge_candidates(a, b);
    assert forall|k: int| 0 <= k < b.len() implies clashes_with(a + m, #[trigger] b[k]) by {
        if clashes_with(a, b[k]) {
            let j = choose|j: int| 0 <= j < a.len() && (a[j].uuid == b[k].uuid || a[j].asset_url@ == b[k].asset_url@);
            assert((a + m)[j] == a[j]);
        } else {
            assert(m.contains(b[k]));
            let j = choose|j: int| 0 <= j < m.len() && m[j] == b[k];
            assert((a + m)[a.len() + j] == m[j]);
        }
    }
    lemma_merge_candidates_none(a + m, b);
}

/// After a version is removed, no version has its UUID, and looking it up
/// finds nothing.
pub proof fn lemma_removed_version_gone(vs: Seq<Version>, uuid: Uuid)
    ensures
        forall|k: int| 0 <= k < without_version(vs, uuid).len() ==> (#[trigger] without_version(vs, uuid)[k]).uuid
            != uuid,
        first_index(without_version(vs, uuid), has_uuid(uuid)) is None,
    decreases vs.len(),
{
    if vs.len() > 0 {
        lemma_removed_version_gone(vs.drop_last(), uuid);
        let r = without_version(vs.drop_last(), uuid);
        if vs.last().uuid != uuid {
            assert forall|k: int| 0 <= k < r.push(vs.last()).len() implies (#[trigger] r.push(vs.last())[k]).uuid
                != uuid by {
                if k < r.len() {
                    assert(r.push(vs.last())[k] == r[k]);
                }
            }
        }
    }
    lemma_first_index_none(without_version(vs, uuid), has_uuid(uuid));
}

/// A version added under a UUID that no version had before is what looking
/// up that UUID gives.
pub proof fn lemma_add_then_get_version(vs: Seq<Version>, version: Version)
    requires
        first_index(vs, has_uuid(version.uuid)) is None,
    ensures
        first_index(vs.push(version), has_uuid(version.uuid)) == Some(vs.len() as int),
{
    let p = has_uuid(version.uuid);
    lemma_first_index(vs, p);
    let n = vs.push(version);
    assert forall|m: int| 0 <= m < vs.len() implies !p(n[m]) by {
        assert(n[m] == vs[m]);
    }
    lemma_first_index_at(n, p, vs.len() as int);
}

/// Whether `x` sorts before or equal to `y` by code points, character by
/// character, a prefix first (the order of std's comparison of `str`, since
/// UTF-8 keeps the order of code points).
pub open spec fn chars_le(x: Seq<char>, y: Seq<char>) -> bool
    decreases x.len(),
{
    if x.len() == 0 {
        true
    } else if y.len() == 0 {
        false
    } else if x[0] != y[0] {
        (x[0] as int) < (y[0] as int)
    } else {
        chars_le(x.drop_first(), y.drop_first())
    }
}

/// The order of versions by name (std's order of `Option<&str>`): no name
/// first, then names by `chars_le`.
pub open spec fn name_le(a: Option<String>, b: Option<String>) -> bool {
    match a {
        None => true,
        Some(x) => match b {
            None => false,
            Some(y) => chars_le(x@, y@),
        },
    }
}

pub proof fn lemma_chars_le_total(x: Seq<char>, y: Seq<char>)
    ensures
        chars_le(x, y) || chars_le(y, x),
    decreases x.len(),
{
    if x.len() > 0 && y.len() > 0 {
        if x[0] == y[0] {
            lemma_chars_le_total(x.drop_first(), y.drop_first());
        } else {
            assert((x[0] as int) != (y[0] as int));
        }
    }
}

pub proof fn lemma_chars_le_trans(x: Seq<char>, y: Seq<char>, z: Seq<char>)
    requires
        chars_le(x, y),
        chars_le(y, z),
    ensures
        chars_le(x, z),
    decreases x.len(),
{
    if x.len() > 0 && y.len() > 0 && z.len() > 0 && x[0] == y[0] && y[0] == z[0] {
        lemma_chars_le_trans(x.drop_first(), y.drop_first(), z.drop_first());
    }
}

pub proof fn lemma_name_le_total(a: Option<String>, b: Option<String>)
    ensures
        name_le(a, b) || name_le(b, a),
{
    if a is Some && b is Some {
        lemma_chars_le_total(a->0@, b->0@);
    }
}

pub proof fn lemma_name_le_trans(a: Option<String>, b: Option<String>, c: Option<String>)
    requires
        name_le(a, b),
        name_le(b, c),
    ensures
        name_le(a, c),
{
    if a is Some && b is Some && c is Some {
        lemma_chars_le_trans(a->0@, b->0@, c->0@);
    }
}

/// Versions ordered by name.
pub open spec fn sorted_by_name(vs: Seq<Version>) -> bool {
    forall|i: int, j: int| 0 <= i < j < vs.len() ==> name_le(vs[i].name, vs[j].name)
}

fn chars_le_exec(x: &Vec<char>, y: &Vec<char>) -> (r: bool)
    ensures
        r == chars_le(x@, y@),
{
    let mut k: usize = 0;
    assert(x@.skip(0) =~= x@);
    assert(y@.skip(0) =~= y@);
    while k < x.len() && k < y.len() && x[k] == y[k]
        invariant
            k <= x.len(),
            k <= y.len(),
            chars_le(x@, y@) == chars_le(x@.skip(k as int), y@.skip(k as int)),
        decreases x.len() - k,
    {
        assert(x@.skip(k as int).drop_first() =~= x@.skip(k + 1));
        assert(y@.skip(k as int).drop_first() =~= y@.skip(k + 1));
        k = k + 1;
    }
    if k == x.len() {
        true
    } else if k == y.len() {
        false
    } else {
        assert(x@.skip(k as int)[0] == x@[k as int]);
        assert(y@.skip(k as int)[0] == y@[k as int]);
        x[k] < y[k]
    }
}

fn name_le_exec(a: &Option<String>, b: &Option<String>) -> (r: bool)
    ensures
        r == name_le(*a, *b),
{
    match a {
        None => true,
        Some(x) => match b {
            None => false,
            Some(y) => {
                let xc = chars_of(x.as_str());
                let yc = chars_of(y.as_str());
                chars_le_exec(&xc, &yc)
            },
        },
    }
}

/// A version's name, as characters.
pub open spec fn name_key(v: Version) -> Option<Seq<char>> {
    match v.name {
        Some(n) => Some(n@),
        None => None,
    }
}

/// The versions of `vs` named `key`, in their order in `vs`.
pub open spec fn named(vs: Seq<Version>, key: Option<Seq<char>>) -> Seq<Version> {
    vs.filter(|v: Version| name_key(v) == key)
}

pub proof fn lemma_chars_le_refl(x: Seq<char>)
    ensures
        chars_le(x, x),
    decreases x.len(),
{
    if x.len() > 0 {
        lemma_chars_le_refl(x.drop_first());
    }
}

/// Versions of the same name sort either way.
proof fn lemma_same_name_le(a: Version, b: Version)
    requires
        name_key(a) == name_key(b),
    ensures
        name_le(a.name, b.name),
{
    if a.name is Some {
        lemma_chars_le_refl(a.name->0@);
    }
}

/// A sequence none of whose elements satisfies `pred` filters to nothing.
proof fn lemma_filter_none<A>(s: Seq<A>, pred: spec_fn(A) -> bool)
    requires
        forall|m: int| 0 <= m < s.len() ==> !pred(#[trigger] s[m]),
    ensures
        s.filter(pred) == Seq::<A>::empty(),
{
    broadcast use vstd::seq_lib::group_filter_ensures;

    if s.filter(pred).len() > 0 {
        let e = s.filter(pred)[0];
        assert(s.filter(pred).contains(e));
        s.lemma_filter_contains_rev(pred, e);
        assert(pred(e));
    }
}

/// Placing `x` after the versions that do not sort after it, in a sorted
/// sequence, puts it behind every version of its name.
proof fn lemma_insert_named(before: Seq<Version>, p: int, x: Version, key: Option<Seq<char>>)
    requires
        sorted_by_name(before),
        0 <= p <= before.len(),
        p < before.len() ==> !name_le(before[p].name, x.name),
    ensures
        named(before.insert(p, x), key) == if name_key(x) == key {
            named(before, key).push(x)
        } else {
            named(before, key)
        },
{
    let pred = |v: Version| name_key(v) == key;
    let head = before.take(p);
    let tail = before.skip(p);
    assert(before =~= head + tail);
    assert(before.insert(p, x) =~= head + seq![x] + tail);
    Seq::filter_distributes_over_add(head, tail, pred);
    Seq::filter_distributes_over_add(head + seq![x], tail, pred);
    Seq::filter_distributes_over_add(head, seq![x], pred);
    assert(seq![x] =~= Seq::<Version>::empty().push(x));
    Seq::<Version>::empty().lemma_filter_push(x, pred);
    lemma_filter_none(Seq::<Version>::empty(), pred);
    if name_key(x) == key {
        assert forall|m: int| 0 <= m < tail.len() implies !pred(#[trigger] tail[m]) by {
            if pred(tail[m]) {
                assert(tail[m] == before[p + m]);
                lemma_same_name_le(before[p + m], x);
                if m > 0 {
                    lemma_name_le_trans(before[p].name, before[p + m].name, x.name);
                }
            }
        }
        lemma_filter_none(tail, pred);
        assert(named(before, key) =~= head.filter(pred));
        assert(named(before.insert(p, x), key) =~= head.filter(pred).push(x));
    } else {
        assert(named(before.insert(p, x), key) =~= head.filter(pred) + tail.filter(pred));
    }
}

/// Orders versions by name (see `name_le`); versions of the same name keep
/// their order, since each is placed after those already placed that do
/// not sort after it. The result is sorted and, name by name, holds the
/// same versions in the same order as `vs`, which fixes it.
pub fn sort_by_name(vs: Vec<Version>) -> (res: Vec<Version>)
    ensures
        sorted_by_name(res@),
        forall|key: Option<Seq<char>>| #[trigger] named(res@, key) == named(vs@, key),
        res@.to_multiset() == vs@.to_multiset(),
{
    broadcast use vstd::seq_lib::group_to_multiset_ensures;

    let mut res: Vec<Version> = Vec::new();
    let mut k: usize = 0;
    proof {
        assert forall|key: Option<Seq<char>>| #[trigger] named(res@, key) == named(vs@.take(0), key) by {
            lemma_filter_none(res@, |v: Version| name_key(v) == key);
            lemma_filter_none(vs@.take(0), |v: Version| name_key(v) == key);
        }
    }
    while k < vs.len()
        invariant
            k <= vs.len(),
            sorted_by_name(res@),
            forall|key: Option<Seq<char>>| #[trigger] named(res@, key) == named(vs@.take(k as int), key),
            res@.to_multiset() == vs@.take(k as int).to_multiset(),
        decreases vs.len() - k,
    {
        let x = vs[k].clone();
        let mut p: usize = 0;
        while p < res.len() && name_le_exec(&res[p].name, &x.name)
            invariant
                p <= res.len(),
                forall|m: int| 0 <= m < p ==> name_le(res@[m].name, x.name),
            decreases res.len() - p,
        {
            p = p + 1;
        }
        let ghost before = res@;
        proof {
            if p < res@.len() {
                lemma_name_le_total(res@[p as int].name, x.name);
            }
        }
        res.insert(p, x);
        proof {
            before.insert_ensures(p as int, x);
            assert(res@ == before.insert(p as int, x));
            assert forall|i: int, j: int| 0 <= i < j < res@.len() implies name_le(res@[i].name, res@[j].name) by {
                if j < p {
                    assert(res@[i] == before[i] && res@[j] == before[j]);
                } else if j == p {
                    assert(res@[i] == before[i]);
                } else if i < p {
                    assert(res@[i] == before[i] && res@[j] == before[j - 1]);
                } else if i == p {
                    assert(res@[j] == before[j - 1]);
                    assert(name_le(x.name, before[p as int].name));
                    if j - 1 > p {
                        lemma_name_le_trans(x.name, before[p as int].name, before[j - 1].name);
                    }
                } else {
                    assert(res@[i] == before[i - 1] && res@[j] == before[j - 1]);
                }
            }
            assert(res@.remove(p as int) =~= before);
            assert(res@[p as int] == x);
            res@.to_multiset_ensures();
            assert(res@.remove(p as int).to_multiset() =~= res@.to_multiset().remove(res@[p as int]));
            assert(res@.to_multiset().remove(x) =~= before.to_multiset());
            assert(res@.contains(x));
            assert(res@.to_multiset().count(x) > 0);
            assert(res@.to_multiset() =~= before.to_multiset().insert(x));
            assert(vs@.take(k + 1) =~= vs@.take(k as int).push(vs@[k as int]));
            vs@.take(k as int).to_multiset_ensures();
            assert(vs@.take(k as int).push(vs@[k as int]).to_multiset() =~= vs@.take(k as int).to_multiset().insert(vs@[k as int]));
            assert forall|key: Option<Seq<char>>| #[trigger] named(res@, key) == named(vs@.take(k + 1), key) by {
                lemma_insert_named(before, p as int, x, key);
                vs@.take(k as int).lemma_filter_push(vs@[k as int], |v: Version| name_key(v) == key);
            }
        }
        k = k + 1;
    }
    assert(vs@.take(k as int) =~= vs@);
    res
}

impl Versions {
    /// The versions at start-up: the built-in ones (where they could be
    /// read), then those of the application's data (where they could be
    /// read) that the built-in ones have neither by UUID nor by asset URL
    /// (see `calculate_merge`); with the file each was read from.
    pub fn assemble(
        builtins: Option<Vec<Version>>,
        appdata: Option<Vec<Version>>,
        filenames: HashMap<Uuid, String>,
    ) -> (r: Versions)
        ensures
            ({
                let b = match builtins { Some(v) => v@, None => Seq::empty() };
                let a = match appdata { Some(v) => v@, None => Seq::empty() };
                r.versions@ == b + merge_candidates(b, a)
            }),
            r.filenames == filenames,
    {
        let mut versions: Vec<Version> = match builtins {
            Some(v) => v,
            None => Vec::new(),
        };
        let ghost b = versions@;
        if let Some(loaded) = appdata {
            let mut to_merge = Self::calculate_merge(versions.as_slice(), loaded);
            versions.append(&mut to_merge);
        } else {
            assert(merge_candidates(b, Seq::empty()) =~= Seq::<Version>::empty());
            assert(versions@ =~= b + Seq::<Version>::empty());
        }
        Versions { versions, filenames }
    }
}

} // verus!
