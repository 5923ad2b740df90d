//! SEARCH/REPLACE edit blocks: parsing them and applying them to a text.
//!
//! ```text
//! <<<<<<< SEARCH
//! [exact content to find, including surrounding context lines]
//! =======
//! [replacement content]
//! >>>>>>> REPLACE
//! ```
use vstd::prelude::*;
use vstd::string::StringSliceAdditionalSpecFns;
use vstd::utf8::{decode_utf8, encode_utf8, encode_utf8_decode_utf8, is_char_boundary};
use crate::text::{
    chars_of, chars_range, decimal, decimal_string, find_sub, first_occ, is_substring, last_occ,
    lemma_first_occ, lemma_last_occ, lemma_split_on_len, occurs_at, rfind_sub, split_at_each, split_on,
    string_of, trim, trim_range, utf8_len, words_view,
};

verus! {

/// One parsed SEARCH/REPLACE block.
#[derive(Debug)]
pub struct EditHunk {
    pub search: String,
    pub replace: String,
}

pub open spec fn search_marker() -> Seq<char> {
    "<<<<<<< SEARCH"@
}

pub open spec fn separator() -> Seq<char> {
    "======="@
}

pub open spec fn replace_marker() -> Seq<char> {
    ">>>>>>> REPLACE"@
}

pub open spec fn missing_separator_msg() -> Seq<char> {
    "Missing `=======` separator in SEARCH/REPLACE block"@
}

pub open spec fn missing_search_msg() -> Seq<char> {
    "Missing `<<<<<<< SEARCH` marker"@
}

pub open spec fn missing_replace_msg() -> Seq<char> {
    "Missing `>>>>>>> REPLACE` marker"@
}

pub open spec fn empty_block_msg() -> Seq<char> {
    "SEARCH/REPLACE block contains empty search and replace"@
}

/// What one block parses to: `(search, replace)` or the error message.
///
/// The block is trimmed; it is split at its last separator; the search text
/// is what follows the first SEARCH marker before it, the replacement what
/// precedes the last REPLACE marker after it, both trimmed.
#[verifier::opaque]
pub open spec fn spec_parse_hunk_block(block: Seq<char>) -> Result<(Seq<char>, Seq<char>), Seq<char>> {
    let b = trim(block);
    match last_occ(b, separator()) {
        None => Err(missing_separator_msg()),
        Some(p) => {
            let before = b.subrange(0, p);
            let after = b.subrange(p + separator().len(), b.len() as int);
            match first_occ(before, search_marker()) {
                None => Err(missing_search_msg()),
                Some(q) => {
                    let search = trim(before.subrange(q + search_marker().len(), before.len() as int));
                    match last_occ(after, replace_marker()) {
                        None => Err(missing_replace_msg()),
                        Some(e) => {
                            let replace = trim(after.subrange(0, e));
                            if search.len() == 0 && replace.len() == 0 {
                                Err(empty_block_msg())
                            } else {
                                Ok((search, replace))
                            }
                        },
                    }
                },
            }
        },
    }
}

/// Parse a single SEARCH/REPLACE block.
#[verifier::rlimit(80)]
pub fn parse_hunk_block(block: &str) -> (r: Result<EditHunk, String>)
    ensures
        match spec_parse_hunk_block(block@) {
            Ok((s, rp)) => r matches Ok(h) && h.search@ == s && h.replace@ == rp,
            Err(m) => r matches Err(e) && e@ == m,
        },
{
    reveal(spec_parse_hunk_block);
    let raw = chars_of(block);
    let b = trim_range(raw.as_slice(), 0, raw.len());
    assert(raw@.subrange(0, raw@.len() as int) =~= raw@);
    let sep = chars_of("=======");
    let sm = chars_of("<<<<<<< SEARCH");
    let rm = chars_of(">>>>>>> REPLACE");
    let p = match rfind_sub(b.as_slice(), sep.as_slice()) {
        None => {
            return Err(String::from_str("Missing `=======` separator in SEARCH/REPLACE block"));
        },
        Some(p) => p,
    };
    proof {
        lemma_last_occ(b@, sep@, p as int);
        assert(occurs_at(b@, sep@, p as int));
        assert(p + sep@.len() <= b@.len());
        assert(b@.len() == b.len());
        assert(sep@.len() == sep.len());
    }
    let before = chars_range_vec(&b, 0, p);
    let after = chars_range_vec(&b, p + sep.len(), b.len());
    let q = match find_sub(before.as_slice(), sm.as_slice()) {
        None => {
            return Err(String::from_str("Missing `<<<<<<< SEARCH` marker"));
        },
        Some(q) => q,
    };
    proof {
        lemma_first_occ(before@, sm@, q as int);
        assert(occurs_at(before@, sm@, q as int));
    }
    let search = trim_range(before.as_slice(), q + sm.len(), before.len());
    let e = match rfind_sub(after.as_slice(), rm.as_slice()) {
        None => {
            return Err(String::from_str("Missing `>>>>>>> REPLACE` marker"));
        },
        Some(e) => e,
    };
    proof {
        lemma_last_occ(after@, rm@, e as int);
    }
    let replace = trim_range(after.as_slice(), 0, e);
    if search.len() == 0 && replace.len() == 0 {
        return Err(String::from_str("SEARCH/REPLACE block contains empty search and replace"));
    }
    Ok(EditHunk { search: string_of(search.as_slice()), replace: string_of(replace.as_slice()) })
}

fn chars_range_vec(cs: &Vec<char>, a: usize, b: usize) -> (r: Vec<char>)
    requires
        a <= b <= cs@.len(),
    ensures
        r@ == cs@.subrange(a as int, b as int),
{
    chars_range(cs.as_slice(), a, b)
}

/// The characters of `a` followed by those of `b`.
fn concat_chars(a: &[char], b: &[char]) -> (r: Vec<char>)
    ensures
        r@ == a@ + b@,
{
    let mut r = chars_range(a, 0, a.len());
    assert(a@.subrange(0, a@.len() as int) =~= a@);
    let mut i: usize = 0;
    while i < b.len()
        invariant
            i <= b@.len(),
            r@ == a@ + b@.take(i as int),
        decreases b@.len() - i,
    {
        r.push(b[i]);
        assert(b@.take(i + 1) =~= b@.take(i as int).push(b@[i as int]));
        assert(a@ + b@.take(i + 1) =~= (a@ + b@.take(i as int)).push(b@[i as int]));
        i += 1;
    }
    assert(b@.take(b@.len() as int) =~= b@);
    r
}

/// The `(search, replace)` texts of a list of hunks.
pub open spec fn hunk_texts(hs: Seq<EditHunk>) -> Seq<(Seq<char>, Seq<char>)> {
    hs.map_values(|h: EditHunk| (h.search@, h.replace@))
}

pub open spec fn no_block_msg() -> Seq<char> {
    "No `<<<<<<< SEARCH` block found. Use the SEARCH/REPLACE format:\n<<<<<<< SEARCH<<<<<<< SEARCH\nexact content to match\n=======\nreplacement content\n>>>>>>> REPLACE"@
}

/// The message for block number `i` that failed with `e`.
pub open spec fn hunk_error(i: nat, e: Seq<char>) -> Seq<char> {
    "Hunk #"@ + decimal(i) + ": "@ + e
}

/// What the block that follows the `j`-th SEARCH marker parses to.
#[verifier::opaque]
pub open spec fn block_result(pieces: Seq<Seq<char>>, j: int) -> Result<(Seq<char>, Seq<char>), Seq<char>> {
    spec_parse_hunk_block(search_marker() + pieces[j])
}

/// Block `j` is the first one that fails to parse.
pub open spec fn first_failing(pieces: Seq<Seq<char>>, j: int) -> bool {
    &&& 1 <= j < pieces.len()
    &&& block_result(pieces, j) is Err
    &&& forall|k: int| 1 <= k < j ==> #[trigger] block_result(pieces, k) is Ok
}

/// What a whole edit text parses to: one `(search, replace)` pair for each
/// SEARCH marker, or the error of the first block that fails, numbered from 1.
pub open spec fn spec_parse_hunks(input: Seq<char>) -> Result<Seq<(Seq<char>, Seq<char>)>, Seq<char>> {
    let pieces = split_on(input, search_marker());
    if pieces.len() <= 1 {
        Err(no_block_msg())
    } else if exists|j: int| first_failing(pieces, j) {
        let j = choose|j: int| first_failing(pieces, j);
        Err(hunk_error(j as nat, block_result(pieces, j)->Err_0))
    } else {
        Ok(Seq::new((pieces.len() - 1) as nat, |k: int| block_result(pieces, k + 1)->Ok_0))
    }
}

/// Parse every SEARCH/REPLACE block of an edit text.
pub fn parse_hunks(input: &str) -> (r: Result<Vec<EditHunk>, String>)
    ensures
        match spec_parse_hunks(input@) {
            Ok(hs) => r matches Ok(v) && hunk_texts(v@) == hs,
            Err(m) => r matches Err(e) && e@ == m,
        },
{
    let sm = chars_of("<<<<<<< SEARCH");
    proof {
        reveal_strlit("<<<<<<< SEARCH");
    }
    let cs = chars_of(input);
    let pieces = split_at_each(cs.as_slice(), sm.as_slice());
    let ghost wp = words_view(pieces@);
    if pieces.len() <= 1 {
        return Err(String::from_str(
            "No `<<<<<<< SEARCH` block found. Use the SEARCH/REPLACE format:\n<<<<<<< SEARCH<<<<<<< SEARCH\nexact content to match\n=======\nreplacement content\n>>>>>>> REPLACE",
        ));
    }
    let mut hunks: Vec<EditHunk> = Vec::new();
    let mut k: usize = 1;
    while k < pieces.len()
        invariant
            1 <= k <= pieces@.len(),
            wp == words_view(pieces@),
            wp == split_on(input@, search_marker()),
            sm@ == search_marker(),
            hunks@.len() == k - 1,
            forall|t: int| 1 <= t < k ==> #[trigger] block_result(wp, t) is Ok,
            forall|t: int| 0 <= t < k - 1 ==> #[trigger] hunk_texts(hunks@)[t] == block_result(wp, t + 1)->Ok_0,
        decreases pieces@.len() - k,
    {
        let block = concat_chars(sm.as_slice(), pieces[k].as_slice());
        let block_s = string_of(block.as_slice());
        assert(block_s@ == search_marker() + wp[k as int]);
        let parsed = parse_hunk_block(block_s.as_str());
        assert(block_result(wp, k as int) == spec_parse_hunk_block(block_s@)) by {
            reveal(block_result);
        }
        match parsed {
            Ok(h) => {
                let ghost before = hunk_texts(hunks@);
                hunks.push(h);
                assert(hunk_texts(hunks@) =~= before.push((h.search@, h.replace@)));
            },
            Err(e) => {
                let mut msg = String::from_str("Hunk #");
                let num = decimal_string(k);
                msg.append(num.as_str());
                msg.append(": ");
                msg.append(e.as_str());
                proof {
                    assert(first_failing(wp, k as int));
                    let j = choose|j: int| first_failing(wp, j);
                    assert(first_failing(wp, j));
                    if j < k {
                        assert(block_result(wp, j) is Ok);
                    }
                    if k < j {
                        assert(block_result(wp, k as int) is Ok);
                    }
                }
                return Err(msg);
            },
        }
        k += 1;
    }
    proof {
        assert forall|j: int| !first_failing(wp, j) by {
            if first_failing(wp, j) {
                assert(block_result(wp, j) is Ok);
            }
        }
        assert(hunk_texts(hunks@) =~= Seq::new((wp.len() - 1) as nat, |t: int| block_result(wp, t + 1)->Ok_0));
    }
    if hunks.len() == 0 {
        return Err(String::from_str("No valid SEARCH/REPLACE hunks found"));
    }
    Ok(hunks)
}

/// `s` with the first occurrence of `search` replaced by `rep`; `None` when
/// `search` does not occur.
pub open spec fn replace_first(s: Seq<char>, search: Seq<char>, rep: Seq<char>) -> Option<Seq<char>> {
    match first_occ(s, search) {
        Some(p) => Some(s.subrange(0, p) + rep + s.subrange(p + search.len(), s.len() as int)),
        None => None,
    }
}

/// The text after applying the first `n` hunks in turn, or the index of the
/// first hunk whose search text was not found.
#[verifier::opaque]
pub open spec fn apply_steps(content: Seq<char>, hunks: Seq<(Seq<char>, Seq<char>)>, n: nat) -> Result<Seq<char>, int>
    decreases n,
{
    if n == 0 {
        Ok(content)
    } else {
        match apply_steps(content, hunks, (n - 1) as nat) {
            Err(k) => Err(k),
            Ok(cur) => match replace_first(cur, hunks[n - 1].0, hunks[n - 1].1) {
                Some(next) => Ok(next),
                None => Err(n - 1),
            },
        }
    }
}

/// The search text as an error message shows it: texts longer than 120
/// bytes are cut to their first and last 60 bytes.
pub open spec fn search_preview(s: Seq<char>) -> Seq<char> {
    let b = encode_utf8(s);
    if utf8_len(s) > 120 {
        decode_utf8(b.subrange(0, 60)) + "..."@ + decode_utf8(b.subrange(utf8_len(s) - 60, b.len() as int))
    } else {
        s
    }
}

/// The cut points of a long search text fall on character boundaries.
pub open spec fn previewable(s: Seq<char>) -> bool {
    utf8_len(s) > 120 ==> is_char_boundary(encode_utf8(s), 60) && is_char_boundary(
        encode_utf8(s),
        utf8_len(s) - 60,
    )
}

pub open spec fn not_found_msg(n: nat, preview: Seq<char>) -> Seq<char> {
    "Hunk #"@ + decimal(n) + ": SEARCH block not found in file.\n\nSearched for:\n---\n"@ + preview
        + "---\n\nPossible causes:\n1. The file has been modified since you read it \u{2014} re-read and retry.\n2. Indentation differs (tabs vs spaces).\n3. The SEARCH block has a trailing newline that doesn't exist in the file.\n4. Line endings (CRLF vs LF) don't match.\n\nTip: include 1-2 lines of surrounding context above AND below the change."@
}

/// Applying all hunks: the new text, or the not-found message of the first
/// hunk that fails (numbered from 1).
pub open spec fn spec_apply_hunks(content: Seq<char>, hunks: Seq<(Seq<char>, Seq<char>)>) -> Result<Seq<char>, Seq<char>> {
    match apply_steps(content, hunks, hunks.len()) {
        Ok(s) => Ok(s),
        Err(k) => Err(not_found_msg((k + 1) as nat, search_preview(hunks[k].0))),
    }
}

proof fn lemma_apply_err_stays(content: Seq<char>, hunks: Seq<(Seq<char>, Seq<char>)>, k: int, n: nat)
    requires
        0 <= k,
        k + 1 <= n,
        apply_steps(content, hunks, (k + 1) as nat) == Err::<Seq<char>, int>(k),
    ensures
        apply_steps(content, hunks, n) == Err::<Seq<char>, int>(k),
    decreases n,
{
    reveal(apply_steps);
    if n > k + 1 {
        lemma_apply_err_stays(content, hunks, k, (n - 1) as nat);
    }
}

pub proof fn lemma_apply_err_index(content: Seq<char>, hunks: Seq<(Seq<char>, Seq<char>)>, n: nat)
    ensures
        apply_steps(content, hunks, n) matches Err(k) ==> 0 <= k < n,
    decreases n,
{
    reveal(apply_steps);
    if n > 0 {
        lemma_apply_err_index(content, hunks, (n - 1) as nat);
    }
}

proof fn lemma_apply_step_found(
    content: Seq<char>,
    hunks: Seq<(Seq<char>, Seq<char>)>,
    i: nat,
    cur: Seq<char>,
    p: int,
)
    requires
        i < hunks.len(),
        apply_steps(content, hunks, i) == Ok::<Seq<char>, int>(cur),
        occurs_at(cur, hunks[i as int].0, p),
        forall|j: int| 0 <= j < p ==> !#[trigger] occurs_at(cur, hunks[i as int].0, j),
    ensures
        apply_steps(content, hunks, i + 1) == Ok::<Seq<char>, int>(
            cur.subrange(0, p) + hunks[i as int].1 + cur.subrange(p + hunks[i as int].0.len(), cur.len() as int),
        ),
{
    reveal(apply_steps);
    lemma_first_occ(cur, hunks[i as int].0, p);
}

proof fn lemma_apply_step_missing(content: Seq<char>, hunks: Seq<(Seq<char>, Seq<char>)>, i: nat, cur: Seq<char>)
    requires
        i < hunks.len(),
        apply_steps(content, hunks, i) == Ok::<Seq<char>, int>(cur),
        !is_substring(hunks[i as int].0, cur),
    ensures
        apply_steps(content, hunks, hunks.len()) == Err::<Seq<char>, int>(i as int),
{
    assert(apply_steps(content, hunks, i + 1) == Err::<Seq<char>, int>(i as int)) by {
        reveal(apply_steps);
    }
    lemma_apply_err_stays(content, hunks, i as int, hunks.len());
}

/// One hunk replaces the first occurrence of its search text, exactly as
/// written, and fails as hunk number 1 when the text does not occur.
pub proof fn lemma_single_hunk(content: Seq<char>, search: Seq<char>, replace: Seq<char>)
    ensures
        first_occ(content, search) matches Some(p) ==> spec_apply_hunks(content, seq![(search, replace)]) == Ok::<
            Seq<char>,
            Seq<char>,
        >(content.subrange(0, p) + replace + content.subrange(p + search.len(), content.len() as int)),
        first_occ(content, search) is None ==> spec_apply_hunks(content, seq![(search, replace)]) == Err::<
            Seq<char>,
            Seq<char>,
        >(not_found_msg(1, search_preview(search))),
{
    reveal(apply_steps);
    let hs = seq![(search, replace)];
    assert(apply_steps(content, hs, 0) == Ok::<Seq<char>, int>(content));
}

/// Apply the hunks to `content`; on failure, the index of the first hunk
/// whose search text does not occur.
fn apply_core(content: &[char], hunks: &[EditHunk]) -> (r: Result<Vec<char>, usize>)
    ensures
        match apply_steps(content@, hunk_texts(hunks@), hunks@.len()) {
            Ok(s) => r matches Ok(v) && v@ == s,
            Err(k) => r matches Err(i) && i == k,
        },
{
    let ghost hs = hunk_texts(hunks@);
    let mut cur = chars_range(content, 0, content.len());
    assert(content@.subrange(0, content@.len() as int) =~= content@);
    assert(apply_steps(content@, hs, 0) == Ok::<Seq<char>, int>(cur@)) by {
        reveal(apply_steps);
    }
    let mut i: usize = 0;
    while i < hunks.len()
        invariant
            i <= hunks@.len(),
            hs == hunk_texts(hunks@),
            apply_steps(content@, hs, i as nat) == Ok::<Seq<char>, int>(cur@),
        decreases hunks@.len() - i,
    {
        let needle = chars_of(hunks[i].search.as_str());
        let rep = chars_of(hunks[i].replace.as_str());
        assert(hs[i as int] == (needle@, rep@));
        match find_sub(cur.as_slice(), needle.as_slice()) {
            None => {
                proof {
                    lemma_apply_step_missing(content@, hs, i as nat, cur@);
                }
                return Err(i);
            },
            Some(p) => {
                proof {
                    lemma_apply_step_found(content@, hs, i as nat, cur@, p as int);
                    assert(cur@.len() == cur.len());
                }
                let head = chars_range(cur.as_slice(), 0, p);
                let tail = chars_range(cur.as_slice(), p + needle.len(), cur.len());
                let front = concat_chars(head.as_slice(), rep.as_slice());
                cur = concat_chars(front.as_slice(), tail.as_slice());
                assert(cur@ =~= head@ + rep@ + tail@);
            },
        }
        i += 1;
    }
    Ok(cur)
}

/// The index of the first hunk whose search text is not found when the
/// hunks are applied in turn, if any.
pub fn first_unmatched_hunk(content: &str, hunks: &[EditHunk]) -> (r: Option<usize>)
    ensures
        match apply_steps(content@, hunk_texts(hunks@), hunks@.len()) {
            Ok(_) => r is None,
            Err(k) => r == Some(k as usize),
        },
{
    let cs = chars_of(content);
    match apply_core(cs.as_slice(), hunks) {
        Ok(_) => None,
        Err(i) => Some(i),
    }
}

/// Whether the search text can be shown in an error message.
pub fn is_previewable(s: &str) -> (b: bool)
    ensures
        b == previewable(s@),
{
    let n = s.len();
    n <= 120 || (s.is_char_boundary(60) && s.is_char_boundary(n - 60))
}

fn preview_of(s: &str) -> (r: String)
    requires
        previewable(s@),
    ensures
        r@ == search_preview(s@),
{
    let n = s.len();
    if n > 120 {
        let (a, _) = s.split_at(60);
        let (_, b) = s.split_at(n - 60);
        proof {
            encode_utf8_decode_utf8(a@);
            encode_utf8_decode_utf8(b@);
        }
        let mut r = String::from_str(a);
        r.append("...");
        r.append(b);
        r
    } else {
        String::from_str(s)
    }
}

/// Apply the hunks in order, each replacing the first occurrence of its
/// search text; fails on the first hunk whose search text is not found.
pub fn apply_hunks(content: &str, hunks: &[EditHunk]) -> (r: Result<String, String>)
    requires
        forall|k: int|
            apply_steps(content@, hunk_texts(hunks@), hunks@.len()) == Err::<Seq<char>, int>(k)
                ==> previewable(#[trigger] hunks@[k].search@),
    ensures
        match spec_apply_hunks(content@, hunk_texts(hunks@)) {
            Ok(s) => r matches Ok(t) && t@ == s,
            Err(m) => r matches Err(e) && e@ == m,
        },
{
    let cs = chars_of(content);
    match apply_core(cs.as_slice(), hunks) {
        Ok(v) => Ok(string_of(v.as_slice())),
        Err(i) => {
            proof {
                lemma_apply_err_index(content@, hunk_texts(hunks@), hunks@.len());
            }
            let preview = preview_of(hunks[i].search.as_str());
            let mut msg = String::from_str("Hunk #");
            let num = decimal_string(i + 1);
            msg.append(num.as_str());
            msg.append(": SEARCH block not found in file.\n\nSearched for:\n---\n");
            msg.append(preview.as_str());
            msg.append(
                "---\n\nPossible causes:\n1. The file has been modified since you read it \u{2014} re-read and retry.\n2. Indentation differs (tabs vs spaces).\n3. The SEARCH block has a trailing newline that doesn't exist in the file.\n4. Line endings (CRLF vs LF) don't match.\n\nTip: include 1-2 lines of surrounding context above AND below the change.",
            );
            Err(msg)
        },
    }
}

/// A line without the `\r` of a CRLF ending.
pub open spec fn strip_cr(l: Seq<char>) -> Seq<char> {
    if l.len() > 0 && l.last() == '\r' {
        l.drop_last()
    } else {
        l
    }
}

/// The lines of `s` as `str::lines` yields them: split at `\n`, a `\r`
/// before the `\n` dropped, and no empty line after a final `\n`.
pub open spec fn lines_of(s: Seq<char>) -> Seq<Seq<char>> {
    let pieces = split_on(s, seq!['\n']);
    let k = pieces.len() - 1;
    let body = Seq::new(k as nat, |i: int| strip_cr(pieces[i]));
    if pieces[k].len() == 0 {
        body
    } else {
        body.push(pieces[k])
    }
}

fn strip_cr_vec(l: &Vec<char>) -> (r: Vec<char>)
    ensures
        r@ == strip_cr(l@),
{
    let n = l.len();
    if n > 0 && l[n - 1] == '\r' {
        chars_range(l.as_slice(), 0, n - 1)
    } else {
        chars_range(l.as_slice(), 0, n)
    }
}

/// The lines of `s`.
pub fn lines_vec(s: &[char]) -> (r: Vec<Vec<char>>)
    ensures
        words_view(r@) == lines_of(s@),
{
    let nl: Vec<char> = vec!['\n'];
    assert(nl@ =~= seq!['\n']);
    let pieces = split_at_each(s, nl.as_slice());
    let ghost wp = words_view(pieces@);
    proof {
        lemma_split_on_len(s@, seq!['\n']);
    }
    let k = pieces.len() - 1;
    let mut r: Vec<Vec<char>> = Vec::new();
    let mut i: usize = 0;
    while i < k
        invariant
            k == pieces@.len() - 1,
            wp == words_view(pieces@),
            i <= k,
            words_view(r@) =~= Seq::new(i as nat, |t: int| strip_cr(wp[t])),
        decreases k - i,
    {
        let line = strip_cr_vec(&pieces[i]);
        let ghost before = words_view(r@);
        r.push(line);
        assert(words_view(r@) =~= before.push(strip_cr(wp[i as int])));
        i += 1;
    }
    if pieces[k].len() > 0 {
        let last = chars_range(pieces[k].as_slice(), 0, pieces[k].len());
        assert(pieces@[k as int]@.subrange(0, pieces@[k as int]@.len() as int) =~= pieces@[k as int]@);
        let ghost before = words_view(r@);
        r.push(last);
        assert(words_view(r@) =~= before.push(wp[k as int]));
    }
    r
}

/// The preview that `generate_hunk_diff` writes for the remaining old lines
/// `olds` and new lines `news`, after the output `out` written so far:
/// equal lines are kept (`"  "`), otherwise a new line is added (`"+ "`)
/// while there is one and old lines are removed (`"- "`) after; output
/// stops with a truncation note once it holds 2000 bytes or more.
pub open spec fn diff_lines(olds: Seq<Seq<char>>, news: Seq<Seq<char>>, out: Seq<char>) -> Seq<char>
    decreases olds.len() + news.len(),
{
    if olds.len() == 0 && news.len() == 0 {
        out
    } else if utf8_len(out) >= 2000 {
        out + "... (diff truncated)\n"@
    } else if olds.len() > 0 && news.len() > 0 && olds[0] == news[0] {
        diff_lines(olds.drop_first(), news.drop_first(), out + "  "@ + olds[0] + "\n"@)
    } else if news.len() > 0 {
        diff_lines(olds, news.drop_first(), out + "+ "@ + news[0] + "\n"@)
    } else {
        diff_lines(olds.drop_first(), news, out + "- "@ + olds[0] + "\n"@)
    }
}

pub open spec fn spec_hunk_diff(old: Seq<char>, new: Seq<char>) -> Seq<char> {
    diff_lines(lines_of(old), lines_of(new), Seq::empty())
}

fn same_chars(a: &Vec<char>, b: &Vec<char>) -> (r: bool)
    ensures
        r == (a@ == b@),
{
    if a.len() != b.len() {
        return false;
    }
    let mut i: usize = 0;
    while i < a.len()
        invariant
            a@.len() == b@.len(),
            i <= a@.len(),
            forall|t: int| 0 <= t < i ==> a@[t] == b@[t],
        decreases a@.len() - i,
    {
        if a[i] != b[i] {
            return false;
        }
        i += 1;
    }
    assert(a@ =~= b@);
    true
}

/// A human-readable line preview of the change from `old` to `new`.
pub fn generate_hunk_diff(old: &str, new: &str) -> (r: String)
    ensures
        r@ == spec_hunk_diff(old@, new@),
{
    let oc = chars_of(old);
    let nc = chars_of(new);
    let ol = lines_vec(oc.as_slice());
    let nl = lines_vec(nc.as_slice());
    let ghost olv = words_view(ol@);
    let ghost nlv = words_view(nl@);
    let mut output = String::new();
    let mut i: usize = 0;
    let mut j: usize = 0;
    assert(olv.subrange(0, olv.len() as int) =~= olv);
    assert(nlv.subrange(0, nlv.len() as int) =~= nlv);
    loop
        invariant_except_break
            i <= ol@.len(),
            j <= nl@.len(),
            olv == words_view(ol@),
            nlv == words_view(nl@),
            spec_hunk_diff(old@, new@) == diff_lines(
                olv.subrange(i as int, olv.len() as int),
                nlv.subrange(j as int, nlv.len() as int),
                output@,
            ),
        ensures
            output@ == spec_hunk_diff(old@, new@),
        decreases ol@.len() - i + nl@.len() - j,
    {
        let ghost olr = olv.subrange(i as int, olv.len() as int);
        let ghost nlr = nlv.subrange(j as int, nlv.len() as int);
        if !(i < ol.len() || j < nl.len()) {
            break;
        }
        if output.as_str().len() >= 2000 {
            output.append("... (diff truncated)\n");
            break;
        }
        if i < ol.len() && j < nl.len() && same_chars(&ol[i], &nl[j]) {
            let line = string_of(ol[i].as_slice());
            output.append("  ");
            output.append(line.as_str());
            output.append("\n");
            assert(olr.drop_first() =~= olv.subrange(i + 1, olv.len() as int));
            assert(nlr.drop_first() =~= nlv.subrange(j + 1, nlv.len() as int));
            i += 1;
            j += 1;
        } else if j < nl.len() {
            let line = string_of(nl[j].as_slice());
            output.append("+ ");
            output.append(line.as_str());
            output.append("\n");
            assert(nlr.drop_first() =~= nlv.subrange(j + 1, nlv.len() as int));
            j += 1;
        } else {
            let line = string_of(ol[i].as_slice());
            output.append("- ");
            output.append(line.as_str());
            output.append("\n");
            assert(olr.drop_first() =~= olv.subrange(i + 1, olv.len() as int));
            i += 1;
        }
    }
    output
}

/// The arguments of a diff edit: the file, its SEARCH/REPLACE blocks, and
/// whether to only preview the change.
pub struct DiffEditArgs {
    pub path: String,
    pub edits: String,
    pub dry_run: bool,
}

/// The diff edit tool.
pub struct DiffEdit;

/// The report of an edit of `path` by `n` hunks, from `old` to `new`.
pub open spec fn edit_report(path: Seq<char>, old: Seq<char>, new: Seq<char>, n: nat, dry_run: bool) -> Seq<char> {
    let lo = decimal(lines_of(old).len());
    let ln = decimal(lines_of(new).len());
    let diff = spec_hunk_diff(old, new);
    if dry_run {
        "DRY RUN \u{2014} "@ + decimal(n) + " hunk(s) would apply to '"@ + path + "'\n\nChange preview ("@ + lo
            + " lines \u{2192} "@ + ln + " lines):\n---\n"@ + diff + "---\n\nUse dry_run=false to apply."@
    } else {
        "Applied "@ + decimal(n) + " hunk(s) to '"@ + path + "'.\n\nFile changed: "@ + lo + " lines \u{2192} "@ + ln
            + " lines.\n\nChanges:\n---\n"@ + diff + "---"@
    }
}

/// Every hunk that fails to apply can be shown in the error message.
pub open spec fn edits_previewable(content: Seq<char>, edits: Seq<char>) -> bool {
    spec_parse_hunks(edits) matches Ok(hs) ==> forall|k: int|
        apply_steps(content, hs, hs.len()) == Err::<Seq<char>, int>(k) ==> previewable(#[trigger] hs[k].0)
}

fn count_lines(s: &str) -> (n: usize)
    ensures
        n == lines_of(s@).len(),
{
    let cs = chars_of(s);
    lines_vec(cs.as_slice()).len()
}

/// Write the report of an edit.
pub fn report_edit(path: &str, old: &str, new: &str, n: usize, dry_run: bool) -> (r: String)
    ensures
        r@ == edit_report(path@, old@, new@, n as nat, dry_run),
{
    let lo = decimal_string(count_lines(old));
    let ln = decimal_string(count_lines(new));
    let diff = generate_hunk_diff(old, new);
    let count = decimal_string(n);
    if dry_run {
        let mut r = String::from_str("DRY RUN \u{2014} ");
        r.append(count.as_str());
        r.append(" hunk(s) would apply to '");
        r.append(path);
        r.append("'\n\nChange preview (");
        r.append(lo.as_str());
        r.append(" lines \u{2192} ");
        r.append(ln.as_str());
        r.append(" lines):\n---\n");
        r.append(diff.as_str());
        r.append("---\n\nUse dry_run=false to apply.");
        r
    } else {
        let mut r = String::from_str("Applied ");
        r.append(count.as_str());
        r.append(" hunk(s) to '");
        r.append(path);
        r.append("'.\n\nFile changed: ");
        r.append(lo.as_str());
        r.append(" lines \u{2192} ");
        r.append(ln.as_str());
        r.append(" lines.\n\nChanges:\n---\n");
        r.append(diff.as_str());
        r.append("---");
        r
    }
}

impl DiffEdit {
    /// An edit of a file whose text is `content`: the new text and the
    /// report, or the parse or apply error. Reading the file before and
    /// writing the new text after (unless `dry_run`) is the caller's part.
    pub fn call(&self, args: &DiffEditArgs, content: &str) -> (r: Result<(String, String), String>)
        requires
            edits_previewable(content@, args.edits@),
        ensures
            match spec_parse_hunks(args.edits@) {
                Err(m) => r matches Err(e) && e@ == m,
                Ok(hs) => match spec_apply_hunks(content@, hs) {
                    Err(m) => r matches Err(e) && e@ == m,
                    Ok(new) => r matches Ok((t, rep)) && t@ == new && rep@ == edit_report(
                        args.path@,
                        content@,
                        new,
                        hs.len(),
                        args.dry_run,
                    ),
                },
            },
    {
        let hunks = match parse_hunks(args.edits.as_str()) {
            Ok(h) => h,
            Err(e) => {
                return Err(e);
            },
        };
        proof {
            let hs = hunk_texts(hunks@);
            lemma_apply_err_index(content@, hs, hs.len());
            assert forall|k: int|
                apply_steps(content@, hs, hunks@.len()) == Err::<Seq<char>, int>(k) implies previewable(
                #[trigger] hunks@[k].search@,
            ) by {
                assert(hs[k].0 == hunks@[k].search@);
            }
        }
        let new_content = match apply_hunks(content, hunks.as_slice()) {
            Ok(t) => t,
            Err(e) => {
                return Err(e);
            },
        };
        let report = report_edit(args.path.as_str(), content, new_content.as_str(), hunks.len(), args.dry_run);
        Ok((new_content, report))
    }
}

} // verus!
