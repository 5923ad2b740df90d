//! The project listing: which entries of a directory tree are shown, in
//! which order, and how many directories and files are counted on the way.
//! The tree itself is read from disk by the caller, down to the depth of
//! the scan, and handed over as `RawEntry` values.
use vstd::prelude::*;
use crate::config::{dir_name, ProjectConfig};
use crate::project_tools::{
    glob_match, is_skipped_name, scan_depth, spec_glob_match, spec_is_skipped, FileEntry, GetProjectInfo,
    GetProjectInfoArgs, ProjectInfo, ProjectToolError,
};

verus! {

/// A directory entry as read from disk.
pub struct RawEntry {
    /// The name, decoded (lossily where it is not UTF-8).
    pub name: String,
    /// The bytes of the name, by which a listing is ordered.
    pub key: Vec<u8>,
    /// Whether it is a directory; `None` where its type could not be read.
    pub is_dir: Option<bool>,
    /// Its length, where its metadata could be read.
    pub size: Option<u64>,
    /// A directory's own entries in the order the system gave them; `None`
    /// where they were not read or could not be.
    pub listing: Option<Vec<RawEntry>>,
}

/// Byte-wise order of names: `a` comes no later than `b` (a prefix comes
/// first; otherwise the first differing byte decides).
pub open spec fn key_le(a: Seq<u8>, b: Seq<u8>) -> bool
    decreases a.len(),
{
    if a.len() == 0 {
        true
    } else if b.len() == 0 {
        false
    } else if a[0] != b[0] {
        a[0] < b[0]
    } else {
        key_le(a.drop_first(), b.drop_first())
    }
}

proof fn lemma_key_le_skip(a: Seq<u8>, b: Seq<u8>, i: int)
    requires
        0 <= i <= a.len(),
        i <= b.len(),
        forall|j: int| 0 <= j < i ==> a[j] == b[j],
    ensures
        key_le(a, b) == key_le(a.skip(i), b.skip(i)),
    decreases i,
{
    if i > 0 {
        assert(a[0] == b[0]);
        lemma_key_le_skip(a.drop_first(), b.drop_first(), i - 1);
        assert(a.drop_first().skip(i - 1) =~= a.skip(i));
        assert(b.drop_first().skip(i - 1) =~= b.skip(i));
    } else {
        assert(a.skip(0) =~= a);
        assert(b.skip(0) =~= b);
    }
}

fn key_le_exec(a: &Vec<u8>, b: &Vec<u8>) -> (r: bool)
    ensures
        r == key_le(a@, b@),
{
    let mut i: usize = 0;
    while i < a.len() && i < b.len()
        invariant
            i <= a@.len(),
            i <= b@.len(),
            forall|j: int| 0 <= j < i ==> a@[j] == b@[j],
        decreases a@.len() - i,
    {
        if a[i] != b[i] {
            proof {
                lemma_key_le_skip(a@, b@, i as int);
            }
            return a[i] < b[i];
        }
        i += 1;
    }
    proof {
        lemma_key_le_skip(a@, b@, i as int);
    }
    i == a.len()
}

/// Names are ordered byte by byte, as byte strings compare: a name that
/// begins another comes first (and a longer name never comes before its
/// own beginning); otherwise the first byte where they differ decides, the
/// smaller byte first.
pub proof fn lemma_key_order_is_bytewise(a: Seq<u8>, b: Seq<u8>)
    ensures
        a.len() <= b.len() && b.subrange(0, a.len() as int) == a ==> key_le(a, b),
        a.len() < b.len() && b.subrange(0, a.len() as int) == a ==> !key_le(b, a),
        forall|i: int|
            0 <= i < a.len() && i < b.len() && a.subrange(0, i) == b.subrange(0, i) && #[trigger] a[i] < #[trigger] b[i]
                ==> key_le(a, b) && !key_le(b, a),
{
    if a.len() <= b.len() && b.subrange(0, a.len() as int) == a {
        assert forall|j: int| 0 <= j < a.len() implies a[j] == b[j] by {
            assert(b.subrange(0, a.len() as int)[j] == b[j]);
        }
        lemma_key_le_skip(a, b, a.len() as int);
        lemma_key_le_skip(b, a, a.len() as int);
        assert(a.skip(a.len() as int).len() == 0);
    }
    assert forall|i: int|
        0 <= i < a.len() && i < b.len() && a.subrange(0, i) == b.subrange(0, i) && #[trigger] a[i] < #[trigger] b[i]
            implies key_le(a, b) && !key_le(b, a) by {
        assert forall|j: int| 0 <= j < i implies a[j] == b[j] by {
            assert(a.subrange(0, i)[j] == a[j]);
            assert(b.subrange(0, i)[j] == b[j]);
        }
        lemma_key_le_skip(a, b, i);
        lemma_key_le_skip(b, a, i);
        assert(a.skip(i)[0] == a[i]);
        assert(b.skip(i)[0] == b[i]);
    }
}

/// Any two names are ordered one way or the other.
proof fn lemma_key_le_total(a: Seq<u8>, b: Seq<u8>)
    ensures
        key_le(a, b) || key_le(b, a),
    decreases a.len(),
{
    if a.len() > 0 && b.len() > 0 && a[0] == b[0] {
        lemma_key_le_total(a.drop_first(), b.drop_first());
    }
}

/// The order of names is transitive.
proof fn lemma_key_le_trans(a: Seq<u8>, b: Seq<u8>, c: Seq<u8>)
    requires
        key_le(a, b),
        key_le(b, c),
    ensures
        key_le(a, c),
    decreases a.len(),
{
    if a.len() > 0 && b.len() > 0 && c.len() > 0 && a[0] == b[0] && b[0] == c[0] {
        lemma_key_le_trans(a.drop_first(), b.drop_first(), c.drop_first());
    }
}

/// `x` placed into the ordered `t`: after every entry whose key comes no
/// later than its own, so that entries with equal keys keep their order.
pub open spec fn insert_by_key(x: RawEntry, t: Seq<RawEntry>) -> Seq<RawEntry>
    decreases t.len(),
{
    if t.len() == 0 {
        seq![x]
    } else if key_le(t.last().key@, x.key@) {
        t.push(x)
    } else {
        insert_by_key(x, t.drop_last()).push(t.last())
    }
}

/// The entries of a listing that are shown (hidden, package and build
/// directories left out), in the stable order of their keys.
pub open spec fn sorted_visible(s: Seq<RawEntry>) -> Seq<RawEntry>
    decreases s.len(),
{
    if s.len() == 0 {
        Seq::empty()
    } else if spec_is_skipped(s.last().name@) {
        sorted_visible(s.drop_last())
    } else {
        insert_by_key(s.last(), sorted_visible(s.drop_last()))
    }
}

/// Entries in order of their names' bytes.
pub open spec fn key_sorted(s: Seq<RawEntry>) -> bool {
    forall|i: int, j: int| 0 <= i < j < s.len() ==> key_le(#[trigger] s[i].key@, #[trigger] s[j].key@)
}

proof fn lemma_insert_from(x: RawEntry, t: Seq<RawEntry>)
    ensures
        insert_by_key(x, t).len() == t.len() + 1,
        forall|k: int|
            0 <= k < insert_by_key(x, t).len() ==> #[trigger] insert_by_key(x, t)[k] == x || t.contains(
                insert_by_key(x, t)[k],
            ),
    decreases t.len(),
{
    if t.len() > 0 && !key_le(t.last().key@, x.key@) {
        let u = t.drop_last();
        lemma_insert_from(x, u);
        assert forall|k: int| 0 <= k < insert_by_key(x, t).len() implies #[trigger] insert_by_key(x, t)[k] == x
            || t.contains(insert_by_key(x, t)[k]) by {
            if k < insert_by_key(x, u).len() {
                let e = insert_by_key(x, u)[k];
                if e != x {
                    let m = choose|m: int| 0 <= m < u.len() && u[m] == e;
                    assert(t[m] == e);
                }
            } else {
                assert(insert_by_key(x, t)[k] == t[t.len() - 1]);
            }
        }
    } else if t.len() > 0 {
        assert forall|k: int| 0 <= k < insert_by_key(x, t).len() implies #[trigger] insert_by_key(x, t)[k] == x
            || t.contains(insert_by_key(x, t)[k]) by {
            if k < t.len() {
                assert(insert_by_key(x, t)[k] == t[k]);
            }
        }
    }
}

proof fn lemma_insert_sorted(x: RawEntry, t: Seq<RawEntry>)
    requires
        key_sorted(t),
    ensures
        key_sorted(insert_by_key(x, t)),
    decreases t.len(),
{
    if t.len() == 0 {
    } else if key_le(t.last().key@, x.key@) {
        let r = t.push(x);
        assert forall|i: int, j: int| 0 <= i < j < r.len() implies key_le(#[trigger] r[i].key@, #[trigger] r[j].key@) by {
            if j == t.len() {
                if i < t.len() - 1 {
                    lemma_key_le_trans(t[i].key@, t[t.len() - 1].key@, x.key@);
                }
            } else {
                assert(r[i] == t[i] && r[j] == t[j]);
            }
        }
    } else {
        let u = t.drop_last();
        let last = t.last();
        assert(key_sorted(u)) by {
            assert forall|i: int, j: int| 0 <= i < j < u.len() implies key_le(#[trigger] u[i].key@, #[trigger] u[j].key@) by {
                assert(u[i] == t[i] && u[j] == t[j]);
            }
        }
        lemma_insert_sorted(x, u);
        lemma_insert_from(x, u);
        lemma_key_le_total(last.key@, x.key@);
        let v = insert_by_key(x, u);
        let r = v.push(last);
        assert forall|i: int, j: int| 0 <= i < j < r.len() implies key_le(#[trigger] r[i].key@, #[trigger] r[j].key@) by {
            if j == v.len() {
                assert(r[j] == last);
                assert(r[i] == v[i]);
                if v[i] != x {
                    let m = choose|m: int| 0 <= m < u.len() && u[m] == v[i];
                    assert(t[m] == v[i]);
                    assert(key_le(t[m].key@, t[t.len() - 1].key@));
                }
            } else {
                assert(r[i] == v[i] && r[j] == v[j]);
            }
        }
    }
}

proof fn lemma_insert_keeps(x: RawEntry, t: Seq<RawEntry>)
    ensures
        insert_by_key(x, t).contains(x),
        forall|k: int| 0 <= k < t.len() ==> insert_by_key(x, t).contains(#[trigger] t[k]),
    decreases t.len(),
{
    let r = insert_by_key(x, t);
    if t.len() == 0 {
        assert(r[0] == x);
    } else if key_le(t.last().key@, x.key@) {
        assert(r[t.len() as int] == x);
        assert forall|k: int| 0 <= k < t.len() implies r.contains(#[trigger] t[k]) by {
            assert(r[k] == t[k]);
        }
    } else {
        let u = t.drop_last();
        lemma_insert_keeps(x, u);
        lemma_insert_from(x, u);
        let v = insert_by_key(x, u);
        let j = choose|j: int| 0 <= j < v.len() && v[j] == x;
        assert(r[j] == x);
        assert forall|k: int| 0 <= k < t.len() implies r.contains(#[trigger] t[k]) by {
            if k == t.len() - 1 {
                assert(r[v.len() as int] == t[k]);
            } else {
                assert(u[k] == t[k]);
                let m = choose|m: int| 0 <= m < v.len() && v[m] == u[k];
                assert(r[m] == t[k]);
            }
        }
    }
}

/// Every entry of a listing that is not hidden is shown, and nothing else.
pub proof fn lemma_sorted_visible_members(s: Seq<RawEntry>, e: RawEntry)
    ensures
        sorted_visible(s).contains(e) <==> (s.contains(e) && !spec_is_skipped(e.name@)),
    decreases s.len(),
{
    if s.len() > 0 {
        let p = s.drop_last();
        let x = s.last();
        lemma_sorted_visible_members(p, e);
        let t = sorted_visible(p);
        assert(s.contains(e) <==> (p.contains(e) || e == x)) by {
            if s.contains(e) {
                let k = choose|k: int| 0 <= k < s.len() && s[k] == e;
                if k < p.len() {
                    assert(p[k] == e);
                }
            }
            if p.contains(e) {
                let k = choose|k: int| 0 <= k < p.len() && p[k] == e;
                assert(s[k] == e);
            }
            if e == x {
                assert(s[s.len() - 1] == e);
            }
        }
        if !spec_is_skipped(x.name@) {
            lemma_insert_from(x, t);
            lemma_insert_keeps(x, t);
            let r = insert_by_key(x, t);
            if r.contains(e) {
                let k = choose|k: int| 0 <= k < r.len() && r[k] == e;
                assert(r[k] == x || t.contains(r[k]));
            }
            if t.contains(e) {
                let k = choose|k: int| 0 <= k < t.len() && t[k] == e;
                assert(r.contains(t[k]));
            }
        }
    }
}

/// The shown entries of a listing come in the order of their names' bytes.
pub proof fn lemma_sorted_visible_in_order(s: Seq<RawEntry>)
    ensures
        key_sorted(sorted_visible(s)),
    decreases s.len(),
{
    if s.len() > 0 {
        lemma_sorted_visible_in_order(s.drop_last());
        if !spec_is_skipped(s.last().name@) {
            lemma_insert_sorted(s.last(), sorted_visible(s.drop_last()));
        }
    }
}

proof fn lemma_insert_at(x: RawEntry, t: Seq<RawEntry>, p: int)
    requires
        0 <= p <= t.len(),
        p == 0 || key_le(t[p - 1].key@, x.key@),
        forall|k: int| p <= k < t.len() ==> !key_le(#[trigger] t[k].key@, x.key@),
    ensures
        insert_by_key(x, t) == t.subrange(0, p).push(x) + t.subrange(p, t.len() as int),
    decreases t.len(),
{
    if t.len() == 0 {
        assert(t.subrange(0, p).push(x) + t.subrange(p, t.len() as int) =~= seq![x]);
    } else if p == t.len() {
        assert(t.subrange(0, p) =~= t);
        assert(t.subrange(0, p).push(x) + t.subrange(p, t.len() as int) =~= t.push(x));
    } else {
        let u = t.drop_last();
        assert(!key_le(t[t.len() - 1].key@, x.key@));
        assert forall|k: int| p <= k < u.len() implies !key_le(#[trigger] u[k].key@, x.key@) by {
            assert(u[k] == t[k]);
        }
        assert(p == 0 || u[p - 1] == t[p - 1]);
        lemma_insert_at(x, u, p);
        assert(u.subrange(0, p) =~= t.subrange(0, p));
        assert(t.subrange(0, p).push(x) + t.subrange(p, t.len() as int) =~= (u.subrange(0, p).push(x)
            + u.subrange(p, u.len() as int)).push(t.last()));
    }
}

fn insert_sorted(t: &mut Vec<RawEntry>, x: RawEntry)
    ensures
        final(t)@ == insert_by_key(x, old(t)@),
{
    let mut p: usize = t.len();
    while p > 0 && !key_le_exec(&t[p - 1].key, &x.key)
        invariant
            p <= t@.len(),
            forall|k: int| p <= k < t@.len() ==> !key_le(#[trigger] t@[k].key@, x.key@),
        decreases p,
    {
        p -= 1;
    }
    proof {
        lemma_insert_at(x, t@, p as int);
    }
    let ghost before = t@;
    t.insert(p, x);
    assert(t@ =~= before.subrange(0, p as int).push(x) + before.subrange(p as int, before.len() as int));
}

/// The shown entries of a listing in key order, taking the entries over.
pub fn sort_visible(listing: Vec<RawEntry>) -> (r: Vec<RawEntry>)
    ensures
        r@ == sorted_visible(listing@),
{
    let ghost orig = listing@;
    let mut rest = listing;
    let total: usize = rest.len();
    let mut out: Vec<RawEntry> = Vec::new();
    let mut i: usize = 0;
    while rest.len() > 0
        invariant
            i <= orig.len(),
            i + rest@.len() == orig.len(),
            orig.len() == total,
            rest@ == orig.subrange(i as int, orig.len() as int),
            out@ == sorted_visible(orig.subrange(0, i as int)),
        decreases rest@.len(),
    {
        let x = rest.remove(0);
        proof {
            assert(x == orig[i as int]);
            assert(orig.subrange(0, i + 1).drop_last() =~= orig.subrange(0, i as int));
            assert(orig.subrange(0, i + 1).last() == x);
        }
        if !is_skipped_name(x.name.as_str()) {
            insert_sorted(&mut out, x);
        }
        i += 1;
        assert(rest@ =~= orig.subrange(i as int, orig.len() as int));
    }
    assert(orig.subrange(0, i as int) =~= orig);
    out
}

/// A listed entry as a value: its name, its kind (`"directory"` or
/// `"file"`), its size, and for a directory what is listed below it.
pub struct EntryView {
    pub name: Seq<char>,
    pub entry_type: Seq<char>,
    pub size: Option<u64>,
    pub children: Option<Seq<EntryView>>,
}

/// A listed entry as a value, its directories' contents taken `fuel`
/// levels down.
pub open spec fn file_entry_view(e: FileEntry, fuel: nat) -> EntryView
    decreases fuel, 0int, 0int,
{
    EntryView {
        name: e.name@,
        entry_type: e.entry_type@,
        size: e.size,
        children: match e.children {
            None => None,
            Some(v) => Some(
                if fuel == 0 {
                    Seq::empty()
                } else {
                    entries_view(v@, (fuel - 1) as nat)
                },
            ),
        },
    }
}

/// Listed entries as values, `fuel` levels down.
pub open spec fn entries_view(v: Seq<FileEntry>, fuel: nat) -> Seq<EntryView>
    decreases fuel, 1int, v.len(),
{
    if v.len() == 0 {
        Seq::empty()
    } else {
        entries_view(v.drop_last(), fuel).push(file_entry_view(v.last(), fuel))
    }
}

pub open spec fn listed_dir(name: Seq<char>, kids: Seq<EntryView>) -> EntryView {
    EntryView { name, entry_type: "directory"@, size: None, children: Some(kids) }
}

pub open spec fn listed_file(name: Seq<char>, size: Option<u64>) -> EntryView {
    EntryView { name, entry_type: "file"@, size, children: None }
}

/// A name passes the optional pattern.
pub open spec fn pattern_ok(pattern: Option<Seq<char>>, name: Seq<char>) -> bool {
    match pattern {
        None => true,
        Some(p) => spec_glob_match(p, name),
    }
}

pub open spec fn pattern_view(pattern: Option<&str>) -> Option<Seq<char>> {
    match pattern {
        None => None,
        Some(p) => Some(p@),
    }
}

/// What the scan below a directory entry gives at `depth` levels: for a
/// directory at more than one level whose entries were read, the scan of
/// its shown entries; else nothing.
pub open spec fn scan_below(e: RawEntry, depth: nat, pattern: Option<Seq<char>>) -> (Option<Seq<EntryView>>, nat, nat)
    decreases depth, 0int,
{
    if depth > 1 {
        match e.listing {
            Some(l) => scan_seq(sorted_visible(l@), (depth - 1) as nat, pattern),
            None => (Some(Seq::empty()), 0, 0),
        }
    } else {
        (Some(Seq::empty()), 0, 0)
    }
}

/// The scan of entries `es`, taken in order, at `depth` levels: the listed
/// entries (`None` once an entry's type could not be read, where the scan
/// stops), and the directories and files counted. Every directory is
/// counted, listed or not; a file is counted when it is listed. A directory
/// is listed when it passes the pattern or something below it is listed;
/// what a failed scan below it listed is dropped, what it counted is not.
pub open spec fn scan_seq(es: Seq<RawEntry>, depth: nat, pattern: Option<Seq<char>>) -> (Option<Seq<EntryView>>, nat, nat)
    decreases depth, es.len(),
{
    if es.len() == 0 {
        (Some(Seq::empty()), 0, 0)
    } else {
        let prev = scan_seq(es.drop_last(), depth, pattern);
        let e = es.last();
        match prev.0 {
            None => (None, prev.1, prev.2),
            Some(shown) => match e.is_dir {
                None => (None, prev.1, prev.2),
                Some(true) => {
                    let below = scan_below(e, depth, pattern);
                    let kids = match below.0 {
                        Some(k) => k,
                        None => Seq::empty(),
                    };
                    let listed = if pattern_ok(pattern, e.name@) || kids.len() > 0 {
                        shown.push(listed_dir(e.name@, kids))
                    } else {
                        shown
                    };
                    (Some(listed), prev.1 + 1 + below.1, prev.2 + below.2)
                },
                Some(false) => if pattern_ok(pattern, e.name@) {
                    (Some(shown.push(listed_file(e.name@, e.size))), prev.1, prev.2 + 1)
                } else {
                    prev
                },
            },
        }
    }
}

/// How many entries the scan of `es` at `depth` levels looks at.
pub open spec fn visits(es: Seq<RawEntry>, depth: nat) -> nat
    decreases depth, es.len(),
{
    if es.len() == 0 {
        0
    } else {
        let e = es.last();
        let below: nat = if depth > 1 && e.is_dir == Some(true) {
            match e.listing {
                Some(l) => visits(sorted_visible(l@), (depth - 1) as nat),
                None => 0,
            }
        } else {
            0
        };
        visits(es.drop_last(), depth) + 1 + below
    }
}

proof fn lemma_entries_view_len(v: Seq<FileEntry>, fuel: nat)
    ensures
        entries_view(v, fuel).len() == v.len(),
    decreases v.len(),
{
    if v.len() > 0 {
        lemma_entries_view_len(v.drop_last(), fuel);
    }
}

proof fn lemma_counts_le_visits(es: Seq<RawEntry>, depth: nat, pattern: Option<Seq<char>>)
    ensures
        scan_seq(es, depth, pattern).1 + scan_seq(es, depth, pattern).2 <= visits(es, depth),
    decreases depth, es.len(),
{
    if es.len() > 0 {
        let prev = scan_seq(es.drop_last(), depth, pattern);
        lemma_counts_le_visits(es.drop_last(), depth, pattern);
        let e = es.last();
        let below = scan_below(e, depth, pattern);
        if depth > 1 && e.is_dir == Some(true) {
            match e.listing {
                Some(l) => {
                    lemma_counts_le_visits(sorted_visible(l@), (depth - 1) as nat, pattern);
                    assert(below == scan_seq(sorted_visible(l@), (depth - 1) as nat, pattern));
                },
                None => {
                    assert(below == (Some(Seq::<EntryView>::empty()), 0nat, 0nat));
                },
            }
        } else {
            assert(depth <= 1 ==> below == (Some(Seq::<EntryView>::empty()), 0nat, 0nat));
        }
    }
}

proof fn lemma_visits_prefix(es: Seq<RawEntry>, i: int, depth: nat)
    requires
        0 <= i <= es.len(),
    ensures
        visits(es.subrange(0, i), depth) <= visits(es, depth),
    decreases es.len(),
{
    if i < es.len() {
        lemma_visits_prefix(es.drop_last(), i, depth);
        assert(es.drop_last().subrange(0, i) =~= es.subrange(0, i));
    } else {
        assert(es.subrange(0, i) =~= es);
    }
}

proof fn lemma_scan_stops(es: Seq<RawEntry>, i: int, depth: nat, pattern: Option<Seq<char>>)
    requires
        0 <= i <= es.len(),
        scan_seq(es.subrange(0, i), depth, pattern).0 is None,
    ensures
        scan_seq(es, depth, pattern) == scan_seq(es.subrange(0, i), depth, pattern),
    decreases es.len(),
{
    if i < es.len() {
        assert(es.drop_last().subrange(0, i) =~= es.subrange(0, i));
        lemma_scan_stops(es.drop_last(), i, depth, pattern);
    } else {
        assert(es.subrange(0, i) =~= es);
    }
}

fn pattern_passes(pattern: Option<&str>, name: &str) -> (b: bool)
    ensures
        b == pattern_ok(pattern_view(pattern), name@),
{
    match pattern {
        None => true,
        Some(p) => glob_match(p, name),
    }
}

/// Scan entries already in listing order, `depth` levels down, counting
/// into `dirs` and `files`.
fn scan_entries(es: Vec<RawEntry>, depth: usize, pattern: Option<&str>, dirs: &mut usize, files: &mut usize) -> (r: Option<Vec<FileEntry>>)
    requires
        *old(dirs) + *old(files) + visits(es@, depth as nat) <= usize::MAX,
    ensures
        *final(dirs) == *old(dirs) + scan_seq(es@, depth as nat, pattern_view(pattern)).1,
        *final(files) == *old(files) + scan_seq(es@, depth as nat, pattern_view(pattern)).2,
        match r {
            Some(v) => scan_seq(es@, depth as nat, pattern_view(pattern)).0 == Some(entries_view(v@, depth as nat)),
            None => scan_seq(es@, depth as nat, pattern_view(pattern)).0 is None,
        },
    decreases depth,
{
    let ghost orig = es@;
    let ghost pat = pattern_view(pattern);
    let ghost d0: int = *dirs as int;
    let ghost f0: int = *files as int;
    let mut rest = es;
    let total: usize = rest.len();
    let mut out: Vec<FileEntry> = Vec::new();
    let mut i: usize = 0;
    while rest.len() > 0
        invariant
            i <= orig.len(),
            i + rest@.len() == orig.len(),
            orig.len() == total,
            rest@ == orig.subrange(i as int, orig.len() as int),
            pat == pattern_view(pattern),
            orig == es@,
            d0 == *old(dirs),
            f0 == *old(files),
            d0 + f0 + visits(orig, depth as nat) <= usize::MAX,
            scan_seq(orig.subrange(0, i as int), depth as nat, pat).0 == Some(entries_view(out@, depth as nat)),
            *dirs == d0 + scan_seq(orig.subrange(0, i as int), depth as nat, pat).1,
            *files == f0 + scan_seq(orig.subrange(0, i as int), depth as nat, pat).2,
        decreases rest@.len(),
    {
        let e = rest.remove(0);
        let ghost pre = orig.subrange(0, i as int);
        let ghost cur = orig.subrange(0, i + 1);
        proof {
            assert(e == orig[i as int]);
            assert(cur.drop_last() =~= pre);
            assert(cur.last() == e);
            lemma_counts_le_visits(pre, depth as nat, pat);
            lemma_visits_prefix(orig, i + 1, depth as nat);
            lemma_entries_view_len(out@, depth as nat);
        }
        let RawEntry { name, key: _, is_dir, size, listing } = e;
        match is_dir {
            None => {
                proof {
                    assert(scan_seq(cur, depth as nat, pat).0 is None);
                    lemma_scan_stops(orig, i + 1, depth as nat, pat);
                    assert(orig.subrange(0, orig.len() as int) =~= orig);
                }
                return None;
            },
            Some(true) => {
                let ghost below = scan_below(e, depth as nat, pat);
                let ghost kspec = match below.0 {
                    Some(k) => k,
                    None => Seq::<EntryView>::empty(),
                };
                let ghost dirs_mid: int = *dirs + 1;
                let ghost files_mid: int = *files as int;
                *dirs = *dirs + 1;
                let kids: Vec<FileEntry> = if depth > 1 {
                    match listing {
                        Some(l) => {
                            let sorted = sort_visible(l);
                            proof {
                                assert(below == scan_seq(sorted@, (depth - 1) as nat, pat));
                            }
                            match scan_entries(sorted, depth - 1, pattern, dirs, files) {
                                Some(k) => k,
                                None => Vec::new(),
                            }
                        },
                        None => Vec::new(),
                    }
                } else {
                    Vec::new()
                };
                proof {
                    assert(*dirs == dirs_mid + below.1);
                    assert(*files == files_mid + below.2);
                    if depth >= 1 {
                        assert(entries_view(kids@, (depth - 1) as nat) == kspec);
                    } else {
                        assert(kspec == Seq::<EntryView>::empty());
                    }
                    lemma_entries_view_len(kids@, (depth - 1) as nat);
                    assert(kids@.len() == kspec.len());
                }
                if pattern_passes(pattern, name.as_str()) || kids.len() > 0 {
                    let fe = FileEntry {
                        name,
                        entry_type: String::from_str("directory"),
                        size: None,
                        children: Some(kids),
                    };
                    proof {
                        assert(out@.push(fe).drop_last() =~= out@);
                        assert(file_entry_view(fe, depth as nat) == listed_dir(e.name@, kspec));
                    }
                    out.push(fe);
                }
                proof {
                    assert(scan_seq(cur, depth as nat, pat).0 == Some(entries_view(out@, depth as nat)));
                }
            },
            Some(false) => {
                if pattern_passes(pattern, name.as_str()) {
                    *files = *files + 1;
                    let fe = FileEntry { name, entry_type: String::from_str("file"), size, children: None };
                    proof {
                        assert(out@.push(fe).drop_last() =~= out@);
                        assert(file_entry_view(fe, depth as nat) == listed_file(e.name@, e.size));
                    }
                    out.push(fe);
                }
                proof {
                    assert(scan_seq(cur, depth as nat, pat).0 == Some(entries_view(out@, depth as nat)));
                }
            },
        }
        i += 1;
        assert(rest@ =~= orig.subrange(i as int, orig.len() as int));
    }
    assert(orig.subrange(0, i as int) =~= orig);
    Some(out)
}

/// The listing of a directory whose entries are `listing` (`None` where
/// they could not be read), `depth` levels down, counting the directories
/// and files seen into `total_dirs` and `total_files`. The shown entries
/// are taken in the order of their names' bytes. `None` where the entries
/// could not be read, or the scan stopped at an entry whose type could not
/// be read; what was counted before that stays counted.
pub fn scan_directory(
    listing: Option<Vec<RawEntry>>,
    depth: usize,
    pattern: Option<&str>,
    total_dirs: &mut usize,
    total_files: &mut usize,
) -> (r: Option<Vec<FileEntry>>)
    requires
        listing matches Some(l) ==> *old(total_dirs) + *old(total_files) + visits(sorted_visible(l@), depth as nat)
            <= usize::MAX,
    ensures
        match listing {
            None => r is None && *final(total_dirs) == *old(total_dirs) && *final(total_files) == *old(total_files),
            Some(l) => {
                let s = scan_seq(sorted_visible(l@), depth as nat, pattern_view(pattern));
                &&& *final(total_dirs) == *old(total_dirs) + s.1
                &&& *final(total_files) == *old(total_files) + s.2
                &&& match r {
                    Some(v) => s.0 == Some(entries_view(v@, depth as nat)),
                    None => s.0 is None,
                }
            },
        },
{
    match listing {
        None => None,
        Some(l) => {
            let sorted = sort_visible(l);
            scan_entries(sorted, depth, pattern, total_dirs, total_files)
        },
    }
}

pub open spec fn listed_top(name: Seq<char>, is_dir: bool) -> EntryView {
    EntryView {
        name,
        entry_type: if is_dir {
            "directory"@
        } else {
            "file"@
        },
        size: None,
        children: None,
    }
}

/// The top level of a directory without going into it: its shown entries
/// that pass the pattern, in the order read, each a directory (where its
/// type could be read as one) or a file, with the two counts.
pub open spec fn top_level(es: Seq<RawEntry>, pattern: Option<Seq<char>>) -> (Seq<EntryView>, nat, nat)
    decreases es.len(),
{
    if es.len() == 0 {
        (Seq::empty(), 0, 0)
    } else {
        let prev = top_level(es.drop_last(), pattern);
        let e = es.last();
        if spec_is_skipped(e.name@) || !pattern_ok(pattern, e.name@) {
            prev
        } else if e.is_dir == Some(true) {
            (prev.0.push(listed_top(e.name@, true)), prev.1 + 1, prev.2)
        } else {
            (prev.0.push(listed_top(e.name@, false)), prev.1, prev.2 + 1)
        }
    }
}

proof fn lemma_top_level_counts(es: Seq<RawEntry>, pattern: Option<Seq<char>>)
    ensures
        top_level(es, pattern).1 + top_level(es, pattern).2 <= es.len(),
    decreases es.len(),
{
    if es.len() > 0 {
        lemma_top_level_counts(es.drop_last(), pattern);
    }
}

fn scan_top_level(listing: Vec<RawEntry>, pattern: Option<&str>) -> (r: (Vec<FileEntry>, usize, usize))
    ensures
        entries_view(r.0@, 0) == top_level(listing@, pattern_view(pattern)).0,
        r.1 == top_level(listing@, pattern_view(pattern)).1,
        r.2 == top_level(listing@, pattern_view(pattern)).2,
{
    let ghost orig = listing@;
    let ghost pat = pattern_view(pattern);
    let mut rest = listing;
    let total: usize = rest.len();
    let mut out: Vec<FileEntry> = Vec::new();
    let mut dirs: usize = 0;
    let mut files: usize = 0;
    let mut i: usize = 0;
    while rest.len() > 0
        invariant
            i <= orig.len(),
            i + rest@.len() == orig.len(),
            orig.len() == total,
            rest@ == orig.subrange(i as int, orig.len() as int),
            pat == pattern_view(pattern),
            entries_view(out@, 0) == top_level(orig.subrange(0, i as int), pat).0,
            dirs == top_level(orig.subrange(0, i as int), pat).1,
            files == top_level(orig.subrange(0, i as int), pat).2,
        decreases rest@.len(),
    {
        let e = rest.remove(0);
        let ghost pre = orig.subrange(0, i as int);
        let ghost cur = orig.subrange(0, i + 1);
        proof {
            assert(e == orig[i as int]);
            assert(cur.drop_last() =~= pre);
            assert(cur.last() == e);
            lemma_top_level_counts(pre, pat);
        }
        let RawEntry { name, key: _, is_dir, size: _, listing: _ } = e;
        if !is_skipped_name(name.as_str()) && pattern_passes(pattern, name.as_str()) {
            let dir = match is_dir {
                Some(d) => d,
                None => false,
            };
            let fe = if dir {
                dirs = dirs + 1;
                FileEntry { name, entry_type: String::from_str("directory"), size: None, children: None }
            } else {
                files = files + 1;
                FileEntry { name, entry_type: String::from_str("file"), size: None, children: None }
            };
            proof {
                assert(out@.push(fe).drop_last() =~= out@);
                assert(file_entry_view(fe, 0) == listed_top(e.name@, dir));
            }
            out.push(fe);
        }
        i += 1;
        assert(rest@ =~= orig.subrange(i as int, orig.len() as int));
    }
    assert(orig.subrange(0, i as int) =~= orig);
    (out, dirs, files)
}

/// The name a project is shown under.
pub open spec fn shown_name(p: ProjectConfig) -> Seq<char> {
    if p.name@.len() == 0 {
        dir_name(p.path@)
    } else {
        p.name@
    }
}

/// The report of a project scan: what is listed and counted.
pub open spec fn reports(info: ProjectInfo, p: ProjectConfig, structure: Seq<EntryView>, fuel: nat, dirs: nat, files: nat) -> bool {
    &&& info.name@ == shown_name(p)
    &&& info.path@ == p.path@
    &&& entries_view(info.structure@, fuel) == structure
    &&& info.total_dirs == dirs
    &&& info.total_files == files
    &&& info.error is None
}

/// The project scan needs counts that fit a `usize`.
pub open spec fn scan_fits(depth: usize, listing: Option<Vec<RawEntry>>) -> bool {
    depth > 0 ==> (listing matches Some(l) ==> visits(sorted_visible(l@), depth as nat) <= usize::MAX)
}

/// What a project scan reports: for a missing project directory an error
/// and nothing listed; else the scan of its entries (`None` where they
/// could not be read) `depth` levels down, or for a depth of zero only its
/// top level, in the order read, with no sizes.
pub open spec fn project_scanned(
    info: ProjectInfo,
    p: ProjectConfig,
    depth: usize,
    pattern: Option<Seq<char>>,
    exists: bool,
    listing: Option<Vec<RawEntry>>,
) -> bool {
    &&& (!exists ==> {
        &&& info.name@ == shown_name(p)
        &&& info.path@ == p.path@
        &&& info.total_dirs == 0 && info.total_files == 0
        &&& info.structure@.len() == 0
        &&& info.error matches Some(e) && e@ == "Project path does not exist"@
    })
    &&& (exists && depth > 0 ==> match listing {
        None => reports(info, p, Seq::empty(), depth as nat, 0, 0),
        Some(l) => {
            let s = scan_seq(sorted_visible(l@), depth as nat, pattern);
            reports(
                info,
                p,
                match s.0 {
                    Some(v) => v,
                    None => Seq::empty(),
                },
                depth as nat,
                s.1,
                s.2,
            )
        },
    })
    &&& (exists && depth == 0 ==> match listing {
        None => reports(info, p, Seq::empty(), 0, 0, 0),
        Some(l) => {
            let t = top_level(l@, pattern);
            reports(info, p, t.0, 0, t.1, t.2)
        },
    })
}

/// What the project information tool reports for a project, from whether
/// its directory exists and its entries as read (see `project_scanned`).
pub fn scan_project(
    project: &ProjectConfig,
    depth: usize,
    pattern: Option<&str>,
    exists: bool,
    listing: Option<Vec<RawEntry>>,
) -> (info: ProjectInfo)
    requires
        scan_fits(depth, listing),
    ensures
        project_scanned(info, *project, depth, pattern_view(pattern), exists, listing),
{
    let name = project.name();
    let path = String::from_str(project.path.as_str());
    if !exists {
        return ProjectInfo {
            name,
            path,
            total_dirs: 0,
            total_files: 0,
            structure: Vec::new(),
            error: Some(String::from_str("Project path does not exist")),
        };
    }
    let mut total_dirs: usize = 0;
    let mut total_files: usize = 0;
    let structure = if depth > 0 {
        match scan_directory(listing, depth, pattern, &mut total_dirs, &mut total_files) {
            Some(v) => v,
            None => Vec::new(),
        }
    } else {
        match listing {
            Some(l) => {
                let (v, d, f) = scan_top_level(l, pattern);
                total_dirs = d;
                total_files = f;
                v
            },
            None => Vec::new(),
        }
    };
    ProjectInfo { name, path, total_dirs, total_files, structure, error: None }
}

impl GetProjectInfo {
    /// The project information tool: no project is an error; else the scan
    /// of the project at the requested depth (one level unless asked, at
    /// most three) and pattern. Reading the tree and writing the report out
    /// as JSON is the caller's part.
    pub fn info(&self, args: &GetProjectInfoArgs, exists: bool, listing: Option<Vec<RawEntry>>) -> (r: Result<
        ProjectInfo,
        ProjectToolError,
    >)
        requires
            scan_fits(scan_depth_of(args.depth), listing),
        ensures
            match *self.project() {
                None => r matches Err(ProjectToolError::NoProject),
                Some(p) => r matches Ok(info) && project_scanned(
                    info,
                    p,
                    scan_depth_of(args.depth),
                    match args.pattern {
                        Some(s) => Some(s@),
                        None => None,
                    },
                    exists,
                    listing,
                ),
            },
    {
        match self.project_config() {
            None => Err(ProjectToolError::NoProject),
            Some(p) => {
                let depth = scan_depth(args.depth);
                let pattern = match &args.pattern {
                    Some(s) => Some(s.as_str()),
                    None => None,
                };
                Ok(scan_project(p, depth, pattern, exists, listing))
            },
        }
    }
}

/// The depth the tool scans for a requested depth.
pub open spec fn scan_depth_of(requested: Option<usize>) -> usize {
    match requested {
        Some(n) => if n <= 3 {
            n
        } else {
            3
        },
        None => 1,
    }
}

} // verus!
