//! Splitting a command line typed in the terminal into tokens.
use vstd::prelude::*;
use crate::text::{chars_of, chars_range, string_of, trim, trim_range};

verus! {

/// A command line split into tokens, not yet resolved.
pub struct ParsedCommand {
    pub tokens: Vec<String>,
}

/// The tokens read so far, the token being read and whether a quote is
/// open, after the characters `s`.
pub open spec fn token_state(s: Seq<char>) -> (Seq<Seq<char>>, Seq<char>, bool)
    decreases s.len(),
{
    if s.len() == 0 {
        (Seq::empty(), Seq::empty(), false)
    } else {
        let (toks, cur, quoted) = token_state(s.drop_last());
        let ch = s.last();
        if ch == '"' || ch == '\'' {
            (toks, cur, !quoted)
        } else if (ch == ' ' || ch == '\t') && !quoted {
            if cur.len() > 0 {
                (toks.push(cur), Seq::empty(), quoted)
            } else {
                (toks, cur, quoted)
            }
        } else {
            (toks, cur.push(ch), quoted)
        }
    }
}

/// The tokens of `s`: split at spaces and tabs outside quotes; quote
/// characters (`"` or `'`, either closing either) are dropped.
pub open spec fn tokens_of(s: Seq<char>) -> Seq<Seq<char>> {
    let (toks, cur, _) = token_state(s);
    if cur.len() > 0 {
        toks.push(cur)
    } else {
        toks
    }
}

/// The command text: the trimmed input without one leading `/`.
pub open spec fn command_text(input: Seq<char>) -> Seq<char> {
    let t = trim(input);
    if t.len() > 0 && t[0] == '/' {
        t.drop_first()
    } else {
        t
    }
}

pub open spec fn strings_view(v: Seq<String>) -> Seq<Seq<char>> {
    v.map_values(|s: String| s@)
}

/// Split `input` into tokens.
pub fn parse_tokens(input: &[char]) -> (r: Vec<String>)
    ensures
        strings_view(r@) == tokens_of(input@),
{
    let mut tokens: Vec<String> = Vec::new();
    let mut current: Vec<char> = Vec::new();
    let mut in_quote = false;
    let mut i: usize = 0;
    while i < input.len()
        invariant
            i <= input@.len(),
            token_state(input@.take(i as int)) == (strings_view(tokens@), current@, in_quote),
        decreases input@.len() - i,
    {
        let ch = input[i];
        proof {
            assert(input@.take(i + 1).drop_last() =~= input@.take(i as int));
            assert(input@.take(i + 1).last() == ch);
        }
        if ch == '"' || ch == '\'' {
            in_quote = !in_quote;
        } else if (ch == ' ' || ch == '\t') && !in_quote {
            if current.len() > 0 {
                let ghost before = strings_view(tokens@);
                let ghost cur = current@;
                tokens.push(string_of(current.as_slice()));
                current = Vec::new();
                assert(strings_view(tokens@) =~= before.push(cur));
            }
        } else {
            current.push(ch);
        }
        i += 1;
    }
    assert(input@.take(input@.len() as int) =~= input@);
    if current.len() > 0 {
        let ghost before = strings_view(tokens@);
        let ghost cur = current@;
        tokens.push(string_of(current.as_slice()));
        assert(strings_view(tokens@) =~= before.push(cur));
    }
    tokens
}

/// Split a command line into tokens: `/role show "foo bar"` gives `role`,
/// `show` and `foo bar`.
pub fn parse(input: &str) -> (p: ParsedCommand)
    ensures
        strings_view(p.tokens@) == tokens_of(command_text(input@)),
{
    let cs = chars_of(input);
    let t = trim_range(cs.as_slice(), 0, cs.len());
    assert(cs@.subrange(0, cs@.len() as int) =~= cs@);
    let body = if t.len() > 0 && t[0] == '/' {
        let b = chars_range(t.as_slice(), 1, t.len());
        assert(b@ =~= t@.drop_first());
        b
    } else {
        t
    };
    ParsedCommand { tokens: parse_tokens(body.as_slice()) }
}

proof fn lemma_token_state_nonempty(s: Seq<char>)
    ensures
        forall|i: int| 0 <= i < token_state(s).0.len() ==> (#[trigger] token_state(s).0[i]).len() > 0,
    decreases s.len(),
{
    if s.len() > 0 {
        lemma_token_state_nonempty(s.drop_last());
        let prev = token_state(s.drop_last());
        assert forall|i: int| 0 <= i < token_state(s).0.len() implies (#[trigger] token_state(s).0[i]).len() > 0 by {
            if i < prev.0.len() {
                assert(token_state(s).0[i] == prev.0[i]);
            } else {
                assert(token_state(s).0[i] == prev.1);
            }
        }
    }
}

/// No token is empty.
pub proof fn lemma_tokens_nonempty(s: Seq<char>)
    ensures
        forall|i: int| 0 <= i < tokens_of(s).len() ==> (#[trigger] tokens_of(s)[i]).len() > 0,
{
    lemma_token_state_nonempty(s);
}

/// What follows `--project` (or `-p`), or the value of `--project=` (or
/// `-p=`), scanning the arguments from `i` on.
pub open spec fn project_arg_from(args: Seq<Seq<char>>, i: nat) -> Option<Seq<char>>
    decreases args.len() - i,
{
    if i >= args.len() {
        None
    } else {
        let a = args[i as int];
        if (a == "--project"@ || a == "-p"@) && i + 1 < args.len() {
            Some(args[(i + 1) as int])
        } else if a.len() >= 10 && a.take(10) == "--project="@ {
            Some(a.skip(10))
        } else if a.len() >= 3 && a.take(3) == "-p="@ {
            Some(a.skip(3))
        } else if a == "--project"@ || a == "-p"@ {
            None
        } else {
            project_arg_from(args, i + 1)
        }
    }
}

pub(crate) fn starts_with_chars(a: &Vec<char>, prefix: &str) -> (r: bool)
    ensures
        r == (a@.len() >= prefix@.len() && a@.take(prefix@.len() as int) == prefix@),
{
    let p = chars_of(prefix);
    if p.len() > a.len() {
        return false;
    }
    let mut i: usize = 0;
    while i < p.len()
        invariant
            i <= p@.len(),
            p@ == prefix@,
            p@.len() <= a@.len(),
            forall|k: int| 0 <= k < i ==> a@[k] == p@[k],
        decreases p@.len() - i,
    {
        if a[i] != p[i] {
            assert(a@.take(p@.len() as int)[i as int] != p@[i as int]);
            return false;
        }
        i += 1;
    }
    assert(a@.take(p@.len() as int) =~= p@);
    true
}

pub open spec fn args_view(args: Seq<String>) -> Seq<Seq<char>> {
    args.map_values(|s: String| s@)
}

/// The project path given on the command line (the arguments after the
/// program name).
pub fn parse_project_arg(args: &[String]) -> (r: Option<String>)
    ensures
        match project_arg_from(args_view(args@), 0) {
            Some(p) => r matches Some(s) && s@ == p,
            None => r is None,
        },
{
    let mut i: usize = 0;
    while i < args.len()
        invariant
            i <= args@.len(),
            project_arg_from(args_view(args@), 0) == project_arg_from(args_view(args@), i as nat),
        decreases args@.len() - i,
    {
        let a = chars_of(args[i].as_str());
        assert(a@ == args_view(args@)[i as int]);
        let is_flag = crate::text::str_eq(args[i].as_str(), "--project") || crate::text::str_eq(
            args[i].as_str(),
            "-p",
        );
        if is_flag && i + 1 < args.len() {
            return Some(args[i + 1].clone());
        }
        if starts_with_chars(&a, "--project=") {
            proof {
                reveal_strlit("--project=");
            }
            let rest = chars_range(a.as_slice(), 10, a.len());
            assert(rest@ =~= a@.skip(10));
            return Some(string_of(rest.as_slice()));
        }
        if starts_with_chars(&a, "-p=") {
            proof {
                reveal_strlit("-p=");
            }
            let rest = chars_range(a.as_slice(), 3, a.len());
            assert(rest@ =~= a@.skip(3));
            return Some(string_of(rest.as_slice()));
        }
        proof {
            reveal_strlit("--project=");
            reveal_strlit("-p=");
        }
        if is_flag {
            return None;
        }
        i += 1;
    }
    None
}

} // verus!
