//! Character-level text helpers shared by the parsers and matchers.
use vstd::prelude::*;
use vstd::string::StringSliceAdditionalSpecFns;

verus! {

/// What `str::to_lowercase` returns for a string (Unicode lowercase mapping).
pub uninterp spec fn spec_lowercase(s: Seq<char>) -> Seq<char>;

/// What `char::is_alphanumeric` returns for a character.
pub uninterp spec fn spec_is_alphanumeric(c: char) -> bool;

/// What `char::is_control` returns for a character: whether it is in the
/// Unicode general category Cc, U+0000 to U+001F and U+007F to U+009F.
pub open spec fn spec_is_control(c: char) -> bool {
    (c as int) <= 0x1f || (0x7f <= (c as int) && (c as int) <= 0x9f)
}

/// What `char::is_whitespace` returns for a character: whether it has the
/// Unicode White_Space property (tab to carriage return, space, next line,
/// no-break space, ogham space mark, the spaces U+2000 to U+200A, line and
/// paragraph separators, narrow no-break space, medium mathematical space
/// and ideographic space).
pub open spec fn spec_is_whitespace(c: char) -> bool {
    let x = c as int;
    ||| 0x9 <= x && x <= 0xd
    ||| x == 0x20
    ||| x == 0x85
    ||| x == 0xa0
    ||| x == 0x1680
    ||| 0x2000 <= x && x <= 0x200a
    ||| x == 0x2028
    ||| x == 0x2029
    ||| x == 0x202f
    ||| x == 0x205f
    ||| x == 0x3000
}

/// `str::to_lowercase`: the result is named by `spec_lowercase` of the input.
#[verifier::external_body]
pub(crate) fn to_lowercase(s: &str) -> (r: String)
    ensures
        r@ == spec_lowercase(s@),
{
    s.to_lowercase()
}

/// `char::is_alphanumeric`: the result is named by `spec_is_alphanumeric`.
#[verifier::external_body]
pub(crate) fn is_alphanumeric(c: char) -> (b: bool)
    ensures
        b == spec_is_alphanumeric(c),
{
    c.is_alphanumeric()
}

/// `char::is_control`: the result is what `spec_is_control` says.
#[verifier::external_body]
pub(crate) fn is_control(c: char) -> (b: bool)
    ensures
        b == spec_is_control(c),
{
    c.is_control()
}

/// `char::is_whitespace`: the result is what `spec_is_whitespace` says.
#[verifier::external_body]
pub(crate) fn is_whitespace(c: char) -> (b: bool)
    ensures
        b == spec_is_whitespace(c),
{
    c.is_whitespace()
}

/// `String::push`: appends one character.
#[verifier::external_body]
pub(crate) fn push_char(s: &mut String, c: char)
    ensures
        final(s)@ == old(s)@.push(c),
{
    s.push(c)
}

/// Do two strings hold the same characters?
pub fn str_eq(a: &str, b: &str) -> (r: bool)
    ensures
        r == (a@ == b@),
{
    let x = String::from_str(a);
    let y = String::from_str(b);
    x == y
}

/// The characters of `s`, in order.
pub fn chars_of(s: &str) -> (v: Vec<char>)
    ensures
        v@ == s@,
{
    let mut v: Vec<char> = Vec::new();
    for c in it: s.chars()
        invariant
            v@ == it.seq().take(it.index()),
    {
        v.push(c);
    }
    v
}

/// The string made of the characters of `cs`.
pub fn string_of(cs: &[char]) -> (s: String)
    ensures
        s@ == cs@,
{
    let mut s = String::new();
    let mut i: usize = 0;
    while i < cs.len()
        invariant
            i <= cs@.len(),
            s@ == cs@.take(i as int),
        decreases cs@.len() - i,
    {
        push_char(&mut s, cs[i]);
        assert(cs@.take(i + 1) =~= cs@.take(i as int).push(cs@[i as int]));
        i += 1;
    }
    assert(cs@.take(cs@.len() as int) =~= cs@);
    s
}

/// `needle` occurs in `hay` starting at `i`.
pub open spec fn occurs_at(hay: Seq<char>, needle: Seq<char>, i: int) -> bool {
    0 <= i && i + needle.len() <= hay.len() && hay.subrange(i, i + needle.len()) == needle
}

/// `needle` occurs somewhere in `hay` (the empty string occurs everywhere).
pub open spec fn is_substring(needle: Seq<char>, hay: Seq<char>) -> bool {
    exists|i: int| occurs_at(hay, needle, i)
}

/// Does `needle` occur in `hay` at `i`?
pub fn matches_at(hay: &[char], needle: &[char], i: usize) -> (b: bool)
    requires
        i + needle@.len() <= hay@.len(),
    ensures
        b == occurs_at(hay@, needle@, i as int),
{
    assert(hay@.len() == hay.len());
    let mut k: usize = 0;
    while k < needle.len()
        invariant
            i + needle@.len() <= hay@.len(),
            hay@.len() == hay.len(),
            k <= needle@.len(),
            forall|m: int| 0 <= m < k ==> hay@[i + m] == #[trigger] needle@[m],
        decreases needle@.len() - k,
    {
        if hay[i + k] != needle[k] {
            proof {
                assert(hay@.subrange(i as int, i + needle@.len())[k as int] != needle@[k as int]);
            }
            return false;
        }
        k += 1;
    }
    assert(hay@.subrange(i as int, i + needle@.len()) =~= needle@);
    true
}

/// The first position at which `needle` occurs in `hay`.
pub fn find_sub(hay: &[char], needle: &[char]) -> (r: Option<usize>)
    ensures
        r is None <==> !is_substring(needle@, hay@),
        r matches Some(i) ==> occurs_at(hay@, needle@, i as int) && forall|j: int|
            0 <= j < i ==> !#[trigger] occurs_at(hay@, needle@, j),
{
    if needle.len() > hay.len() {
        return None;
    }
    let last = hay.len() - needle.len();
    let mut i: usize = 0;
    loop
        invariant
            last == hay@.len() - needle@.len(),
            i <= last,
            forall|j: int| 0 <= j < i ==> !#[trigger] occurs_at(hay@, needle@, j),
        decreases last - i,
    {
        if matches_at(hay, needle, i) {
            return Some(i);
        }
        if i == last {
            return None;
        }
        i += 1;
    }
}

/// Does `needle` occur in `hay`? (`str::contains` with a string pattern.)
pub fn contains_sub(hay: &[char], needle: &[char]) -> (b: bool)
    ensures
        b == is_substring(needle@, hay@),
{
    find_sub(hay, needle).is_some()
}

/// The characters of a vector of words.
pub open spec fn words_view(ws: Seq<Vec<char>>) -> Seq<Seq<char>> {
    ws.map_values(|w: Vec<char>| w@)
}

/// The pieces of `s` between non-alphanumeric characters, empty pieces
/// included (what `str::split` with that predicate yields).
pub open spec fn split_pieces(s: Seq<char>) -> Seq<Seq<char>>
    decreases s.len(),
{
    if s.len() == 0 {
        seq![Seq::<char>::empty()]
    } else {
        let p = split_pieces(s.drop_last());
        let c = s.last();
        if !spec_is_alphanumeric(c) {
            p.push(Seq::<char>::empty())
        } else {
            p.update(p.len() - 1, p.last().push(c))
        }
    }
}

/// Length in bytes of the UTF-8 encoding (as `str::len` reports it).
pub open spec fn utf8_len(w: Seq<char>) -> usize {
    vstd::utf8::encode_utf8(w).len() as usize
}

/// The words longer than two bytes, in order.
pub open spec fn long_words(ws: Seq<Seq<char>>) -> Seq<Seq<char>>
    decreases ws.len(),
{
    if ws.len() == 0 {
        ws
    } else {
        let r = long_words(ws.drop_last());
        if utf8_len(ws.last()) > 2 {
            r.push(ws.last())
        } else {
            r
        }
    }
}

/// The nonempty words, in order.
pub open spec fn nonempty_words(ws: Seq<Seq<char>>) -> Seq<Seq<char>>
    decreases ws.len(),
{
    if ws.len() == 0 {
        ws
    } else {
        let r = nonempty_words(ws.drop_last());
        if ws.last().len() > 0 {
            r.push(ws.last())
        } else {
            r
        }
    }
}

proof fn lemma_split_nonempty(s: Seq<char>)
    ensures
        split_pieces(s).len() >= 1,
    decreases s.len(),
{
    if s.len() > 0 {
        lemma_split_nonempty(s.drop_last());
    }
}

/// Split `s` at every non-alphanumeric character.
pub fn split_words(s: &[char]) -> (r: Vec<Vec<char>>)
    ensures
        words_view(r@) == split_pieces(s@),
{
    let mut pieces: Vec<Vec<char>> = Vec::new();
    let mut current: Vec<char> = Vec::new();
    let mut i: usize = 0;
    while i < s.len()
        invariant
            i <= s@.len(),
            words_view(pieces@).push(current@) == split_pieces(s@.take(i as int)),
        decreases s@.len() - i,
    {
        let c = s[i];
        let ghost before = words_view(pieces@).push(current@);
        proof {
            assert(s@.take(i + 1).drop_last() =~= s@.take(i as int));
            assert(s@.take(i + 1).last() == c);
            lemma_split_nonempty(s@.take(i as int));
        }
        if !is_alphanumeric(c) {
            let done = current;
            pieces.push(done);
            current = Vec::new();
            proof {
                assert(words_view(pieces@).push(current@) =~= before.push(Seq::<char>::empty()));
            }
        } else {
            current.push(c);
            proof {
                assert(words_view(pieces@).push(current@) =~= before.update(
                    before.len() - 1,
                    before.last().push(c),
                ));
            }
        }
        i += 1;
    }
    assert(s@.take(s@.len() as int) =~= s@);
    pieces.push(current);
    assert(words_view(pieces@) =~= split_pieces(s@));
    pieces
}

/// Keep the words longer than two bytes.
pub fn keep_long_words(ws: &Vec<Vec<char>>) -> (r: Vec<Vec<char>>)
    ensures
        words_view(r@) == long_words(words_view(ws@)),
{
    let mut r: Vec<Vec<char>> = Vec::new();
    let mut i: usize = 0;
    while i < ws.len()
        invariant
            i <= ws@.len(),
            words_view(r@) == long_words(words_view(ws@).take(i as int)),
        decreases ws@.len() - i,
    {
        let w = string_of(ws[i].as_slice());
        proof {
            assert(words_view(ws@).take(i + 1).drop_last() =~= words_view(ws@).take(i as int));
            assert(words_view(ws@).take(i + 1).last() == ws@[i as int]@);
        }
        let ws_str = w.as_str();
        let wl = ws_str.len();
        proof {
            assert(ws_str@ == ws@[i as int]@);
            assert(wl == utf8_len(ws@[i as int]@));
        }
        if wl > 2 {
            let ghost before = words_view(r@);
            r.push(ws[i].clone());
            proof {
                assert(words_view(r@) =~= before.push(ws@[i as int]@));
            }
        }
        i += 1;
    }
    assert(words_view(ws@).take(ws@.len() as int) =~= words_view(ws@));
    r
}

/// Keep the nonempty words.
pub fn keep_nonempty_words(ws: &Vec<Vec<char>>) -> (r: Vec<Vec<char>>)
    ensures
        words_view(r@) == nonempty_words(words_view(ws@)),
{
    let mut r: Vec<Vec<char>> = Vec::new();
    let mut i: usize = 0;
    while i < ws.len()
        invariant
            i <= ws@.len(),
            words_view(r@) == nonempty_words(words_view(ws@).take(i as int)),
        decreases ws@.len() - i,
    {
        proof {
            assert(words_view(ws@).take(i + 1).drop_last() =~= words_view(ws@).take(i as int));
            assert(words_view(ws@).take(i + 1).last() == ws@[i as int]@);
        }
        if ws[i].len() > 0 {
            let ghost before = words_view(r@);
            r.push(ws[i].clone());
            proof {
                assert(words_view(r@) =~= before.push(ws@[i as int]@));
            }
        }
        i += 1;
    }
    assert(words_view(ws@).take(ws@.len() as int) =~= words_view(ws@));
    r
}

/// `s` without its leading whitespace.
pub open spec fn trim_start(s: Seq<char>) -> Seq<char>
    decreases s.len(),
{
    if s.len() > 0 && spec_is_whitespace(s[0]) {
        trim_start(s.drop_first())
    } else {
        s
    }
}

/// `s` without its trailing whitespace.
pub open spec fn trim_end(s: Seq<char>) -> Seq<char>
    decreases s.len(),
{
    if s.len() > 0 && spec_is_whitespace(s.last()) {
        trim_end(s.drop_last())
    } else {
        s
    }
}

/// `s` without leading and trailing whitespace (`str::trim`).
pub open spec fn trim(s: Seq<char>) -> Seq<char> {
    trim_end(trim_start(s))
}

/// The characters `cs[a..b]`.
pub fn chars_range(cs: &[char], a: usize, b: usize) -> (r: Vec<char>)
    requires
        a <= b <= cs@.len(),
    ensures
        r@ == cs@.subrange(a as int, b as int),
{
    let mut r: Vec<char> = Vec::new();
    let mut i: usize = a;
    while i < b
        invariant
            a <= i <= b,
            b <= cs@.len(),
            r@ == cs@.subrange(a as int, i as int),
        decreases b - i,
    {
        r.push(cs[i]);
        assert(cs@.subrange(a as int, i + 1) =~= cs@.subrange(a as int, i as int).push(cs@[i as int]));
        i += 1;
    }
    r
}

/// The characters of `cs[a..b]` with leading and trailing whitespace removed.
pub fn trim_range(cs: &[char], a: usize, b: usize) -> (r: Vec<char>)
    requires
        a <= b <= cs@.len(),
    ensures
        r@ == trim(cs@.subrange(a as int, b as int)),
{
    let ghost full = cs@.subrange(a as int, b as int);
    let mut lo = a;
    while lo < b && is_whitespace(cs[lo])
        invariant
            a <= lo <= b,
            b <= cs@.len(),
            trim_start(full) == trim_start(cs@.subrange(lo as int, b as int)),
        decreases b - lo,
    {
        assert(cs@.subrange(lo as int, b as int).drop_first() =~= cs@.subrange(lo + 1, b as int));
        lo += 1;
    }
    assert(trim_start(cs@.subrange(lo as int, b as int)) == cs@.subrange(lo as int, b as int));
    let mut hi = b;
    while hi > lo && is_whitespace(cs[hi - 1])
        invariant
            a <= lo <= hi <= b,
            b <= cs@.len(),
            trim(full) == trim_end(cs@.subrange(lo as int, hi as int)),
        decreases hi - lo,
    {
        assert(cs@.subrange(lo as int, hi as int).drop_last() =~= cs@.subrange(lo as int, hi - 1));
        hi -= 1;
    }
    assert(trim_end(cs@.subrange(lo as int, hi as int)) == cs@.subrange(lo as int, hi as int));
    chars_range(cs, lo, hi)
}

/// The last position at which `needle` occurs in `hay`.
pub fn rfind_sub(hay: &[char], needle: &[char]) -> (r: Option<usize>)
    ensures
        r is None <==> !is_substring(needle@, hay@),
        r matches Some(i) ==> occurs_at(hay@, needle@, i as int) && forall|j: int|
            i < j ==> !#[trigger] occurs_at(hay@, needle@, j),
{
    if needle.len() > hay.len() {
        return None;
    }
    let mut i: usize = hay.len() - needle.len();
    loop
        invariant
            i + needle@.len() <= hay@.len(),
            forall|j: int| i < j ==> !#[trigger] occurs_at(hay@, needle@, j),
        decreases i,
    {
        if matches_at(hay, needle, i) {
            return Some(i);
        }
        if i == 0 {
            proof {
                assert forall|j: int| !#[trigger] occurs_at(hay@, needle@, j) by {
                    if j == 0 {
                    }
                }
            }
            return None;
        }
        i -= 1;
    }
}

/// The first occurrence of `needle` in `hay`.
pub open spec fn first_occ(hay: Seq<char>, needle: Seq<char>) -> Option<int> {
    if is_substring(needle, hay) {
        Some(choose|i: int| occurs_at(hay, needle, i) && forall|j: int| 0 <= j < i ==> !#[trigger] occurs_at(hay, needle, j))
    } else {
        None
    }
}

/// The last occurrence of `needle` in `hay`.
pub open spec fn last_occ(hay: Seq<char>, needle: Seq<char>) -> Option<int> {
    if is_substring(needle, hay) {
        Some(choose|i: int| occurs_at(hay, needle, i) && forall|j: int| i < j ==> !#[trigger] occurs_at(hay, needle, j))
    } else {
        None
    }
}

pub proof fn lemma_first_occ(hay: Seq<char>, needle: Seq<char>, i: int)
    requires
        occurs_at(hay, needle, i),
        forall|j: int| 0 <= j < i ==> !#[trigger] occurs_at(hay, needle, j),
    ensures
        first_occ(hay, needle) == Some(i),
{
    let c = choose|c: int| occurs_at(hay, needle, c) && forall|j: int| 0 <= j < c ==> !#[trigger] occurs_at(hay, needle, j);
    assert(occurs_at(hay, needle, c));
    if c < i {
        assert(!occurs_at(hay, needle, c));
    }
    if i < c {
        assert(!occurs_at(hay, needle, i));
    }
}

pub proof fn lemma_last_occ(hay: Seq<char>, needle: Seq<char>, i: int)
    requires
        occurs_at(hay, needle, i),
        forall|j: int| i < j ==> !#[trigger] occurs_at(hay, needle, j),
    ensures
        last_occ(hay, needle) == Some(i),
{
    let c = choose|c: int| occurs_at(hay, needle, c) && forall|j: int| c < j ==> !#[trigger] occurs_at(hay, needle, j);
    assert(occurs_at(hay, needle, c));
    if c < i {
        assert(!occurs_at(hay, needle, i));
    }
    if i < c {
        assert(!occurs_at(hay, needle, c));
    }
}

/// The pieces of `s` between the occurrences of `m`, taken left to right
/// without overlap (what `str::split` with a string pattern yields).
#[verifier::opaque]
pub open spec fn split_on(s: Seq<char>, m: Seq<char>) -> Seq<Seq<char>>
    decreases s.len(),
{
    match first_occ(s, m) {
        Some(p) => if m.len() > 0 && 0 <= p && p + m.len() <= s.len() {
            seq![s.subrange(0, p)] + split_on(s.subrange(p + m.len(), s.len() as int), m)
        } else {
            seq![s]
        },
        None => seq![s],
    }
}

pub proof fn lemma_split_on_len(s: Seq<char>, m: Seq<char>)
    ensures
        split_on(s, m).len() >= 1,
    decreases s.len(),
{
    reveal(split_on);
    match first_occ(s, m) {
        Some(p) => if m.len() > 0 && 0 <= p && p + m.len() <= s.len() {
            lemma_split_on_len(s.subrange(p + m.len(), s.len() as int), m);
        },
        None => {},
    }
}

proof fn lemma_split_on_step(s: Seq<char>, m: Seq<char>, p: int)
    requires
        m.len() > 0,
        occurs_at(s, m, p),
        forall|j: int| 0 <= j < p ==> !#[trigger] occurs_at(s, m, j),
    ensures
        split_on(s, m) == seq![s.subrange(0, p)] + split_on(s.subrange(p + m.len(), s.len() as int), m),
{
    reveal(split_on);
    lemma_first_occ(s, m, p);
}

proof fn lemma_split_on_none(s: Seq<char>, m: Seq<char>)
    requires
        !is_substring(m, s),
    ensures
        split_on(s, m) == seq![s],
{
    reveal(split_on);
}

/// Split `cs` at every occurrence of `m` (left to right, no overlap).
pub fn split_at_each(cs: &[char], m: &[char]) -> (r: Vec<Vec<char>>)
    requires
        m@.len() > 0,
    ensures
        words_view(r@) == split_on(cs@, m@),
{
    let mut pieces: Vec<Vec<char>> = Vec::new();
    let mut rest = chars_range(cs, 0, cs.len());
    assert(cs@.subrange(0, cs@.len() as int) =~= cs@);
    assert(words_view(pieces@) + split_on(rest@, m@) =~= split_on(cs@, m@));
    loop
        invariant_except_break
            words_view(pieces@) + split_on(rest@, m@) == split_on(cs@, m@),
        invariant
            m@.len() > 0,
        ensures
            words_view(pieces@) == split_on(cs@, m@),
        decreases rest@.len(),
    {
        let found = find_sub(rest.as_slice(), m);
        let ghost before = words_view(pieces@);
        let ghost old_rest = rest@;
        if found.is_none() {
            proof {
                lemma_split_on_none(old_rest, m@);
            }
            pieces.push(rest);
            assert(words_view(pieces@) =~= before + seq![old_rest]);
            break;
        }
        let p = found.unwrap();
        proof {
            assert(occurs_at(old_rest, m@, p as int));
            assert(old_rest.len() == rest.len());
            assert(m@.len() == m.len());
            lemma_split_on_step(old_rest, m@, p as int);
        }
        let piece = chars_range(rest.as_slice(), 0, p);
        let next = chars_range(rest.as_slice(), p + m.len(), rest.len());
        pieces.push(piece);
        rest = next;
        assert(words_view(pieces@) =~= before.push(old_rest.subrange(0, p as int)));
        assert(words_view(pieces@) + split_on(rest@, m@) =~= before + split_on(old_rest, m@));
    }
    pieces
}

/// Decimal digits of `n` (what `Display` prints for an unsigned integer).
pub open spec fn decimal(n: nat) -> Seq<char>
    decreases n,
{
    if n < 10 {
        seq![digit_char(n)]
    } else {
        decimal(n / 10).push(digit_char(n % 10))
    }
}

pub open spec fn digit_char(d: nat) -> char {
    if d == 0 { '0' } else if d == 1 { '1' } else if d == 2 { '2' } else if d == 3 { '3' } else if d == 4 { '4' }
    else if d == 5 { '5' } else if d == 6 { '6' } else if d == 7 { '7' } else if d == 8 { '8' } else { '9' }
}

fn digit(d: usize) -> (c: char)
    requires
        d < 10,
    ensures
        c == digit_char(d as nat),
{
    if d == 0 { '0' } else if d == 1 { '1' } else if d == 2 { '2' } else if d == 3 { '3' } else if d == 4 { '4' }
    else if d == 5 { '5' } else if d == 6 { '6' } else if d == 7 { '7' } else if d == 8 { '8' } else { '9' }
}

/// The decimal form of `n`.
pub fn decimal_string(n: usize) -> (s: String)
    ensures
        s@ == decimal(n as nat),
    decreases n,
{
    if n < 10 {
        let mut s = String::new();
        push_char(&mut s, digit(n));
        assert(s@ =~= seq![digit_char(n as nat)]);
        s
    } else {
        let mut s = decimal_string(n / 10);
        push_char(&mut s, digit(n % 10));
        s
    }
}

/// The decimal form of a 64-bit `n`.
pub fn decimal_u64(n: u64) -> (s: String)
    ensures
        s@ == decimal(n as nat),
    decreases n,
{
    if n < 10 {
        let mut s = String::new();
        push_char(&mut s, digit(n as usize));
        assert(s@ =~= seq![digit_char(n as nat)]);
        s
    } else {
        let mut s = decimal_u64(n / 10);
        push_char(&mut s, digit((n % 10) as usize));
        s
    }
}

} // verus!
