//! Character-level text utilities for the line-oriented policy grammar:
//! whitespace tokenization, separator splitting, and string equality, each
//! proved against a recursive specification over character sequences.

use vstd::prelude::*;

verus! {

/// ASCII whitespace as the policy grammar understands it.
pub open spec fn is_space(c: char) -> bool {
    c == ' ' || c == '\t' || c == '\r' || c == '\n' || c == '\x0b' || c == '\x0c'
}

fn space_char(c: char) -> (r: bool)
    ensures
        r == is_space(c),
{
    c == ' ' || c == '\t' || c == '\r' || c == '\n' || c == '\x0b' || c == '\x0c'
}

/// The whitespace-separated tokens of `s`, given a partial token `cur`
/// already read: maximal runs of non-space characters, in order.
pub open spec fn split_ws_rest(s: Seq<char>, cur: Seq<char>) -> Seq<Seq<char>>
    decreases s.len(),
{
    if s.len() == 0 {
        if cur.len() == 0 {
            Seq::empty()
        } else {
            seq![cur]
        }
    } else if is_space(s[0]) {
        if cur.len() == 0 {
            split_ws_rest(s.skip(1), Seq::empty())
        } else {
            seq![cur] + split_ws_rest(s.skip(1), Seq::empty())
        }
    } else {
        split_ws_rest(s.skip(1), cur.push(s[0]))
    }
}

/// The whitespace-separated tokens of `s`.
pub open spec fn split_ws(s: Seq<char>) -> Seq<Seq<char>> {
    split_ws_rest(s, Seq::empty())
}

/// The pieces of `s` cut at every occurrence of `sep`, empty pieces kept,
/// given a partial piece `cur` already read.
pub open spec fn split_sep_rest(s: Seq<char>, sep: char, cur: Seq<char>) -> Seq<Seq<char>>
    decreases s.len(),
{
    if s.len() == 0 {
        seq![cur]
    } else if s[0] == sep {
        seq![cur] + split_sep_rest(s.skip(1), sep, Seq::empty())
    } else {
        split_sep_rest(s.skip(1), sep, cur.push(s[0]))
    }
}

/// The pieces of `s` cut at every occurrence of `sep`; always nonempty,
/// and empty pieces are kept.
pub open spec fn split_sep(s: Seq<char>, sep: char) -> Seq<Seq<char>> {
    split_sep_rest(s, sep, Seq::empty())
}

/// The text before and after the first occurrence of `sep`, given the
/// prefix `pre` already read; `None` when `sep` does not occur.
pub open spec fn split_once_rest(s: Seq<char>, sep: char, pre: Seq<char>) -> Option<
    (Seq<char>, Seq<char>),
>
    decreases s.len(),
{
    if s.len() == 0 {
        None
    } else if s[0] == sep {
        Some((pre, s.skip(1)))
    } else {
        split_once_rest(s.skip(1), sep, pre.push(s[0]))
    }
}

/// The text before and after the first occurrence of `sep` in `s`.
pub open spec fn split_once_at(s: Seq<char>, sep: char) -> Option<(Seq<char>, Seq<char>)> {
    split_once_rest(s, sep, Seq::empty())
}

/// Reading a run of non-space characters extends the partial token.
proof fn lemma_ws_run(s: Seq<char>, cur: Seq<char>, m: int)
    requires
        0 <= m <= s.len(),
        forall|k: int| 0 <= k < m ==> !is_space(s[k]),
    ensures
        split_ws_rest(s, cur) == split_ws_rest(s.skip(m), cur + s.take(m)),
    decreases m,
{
    if m == 0 {
        assert(s.skip(0) == s);
        assert(cur + s.take(0) =~= cur);
    } else {
        lemma_ws_run(s.skip(1), cur.push(s[0]), m - 1);
        assert(s.skip(1).skip(m - 1) =~= s.skip(m));
        assert(cur.push(s[0]) + s.skip(1).take(m - 1) =~= cur + s.take(m));
    }
}

/// At a space or at the end of input, a nonempty partial token is emitted.
proof fn lemma_ws_flush(s: Seq<char>, cur: Seq<char>)
    requires
        cur.len() > 0,
        s.len() == 0 || is_space(s[0]),
    ensures
        split_ws_rest(s, cur) == seq![cur] + split_ws_rest(s, Seq::empty()),
{
    if s.len() == 0 {
        assert(seq![cur] + Seq::<Seq<char>>::empty() =~= seq![cur]);
    }
}

/// Splits `s` at whitespace into its maximal non-space runs.
pub fn split_whitespace_owned(s: &str) -> (toks: Vec<String>)
    ensures
        toks@.map_values(|t: String| t@) == split_ws(s@),
{
    let n = s.unicode_len();
    let mut toks: Vec<String> = Vec::new();
    let mut i: usize = 0;
    proof {
        assert(s@.skip(0) == s@);
        assert(toks@.map_values(|t: String| t@) =~= Seq::<Seq<char>>::empty());
        assert(Seq::<Seq<char>>::empty() + split_ws(s@) =~= split_ws(s@));
    }
    while i < n
        invariant
            n == s@.len(),
            i <= n,
            toks@.map_values(|t: String| t@) + split_ws_rest(s@.skip(i as int), Seq::empty())
                == split_ws(s@),
        decreases n - i,
    {
        let c = s.get_char(i);
        if space_char(c) {
            proof {
                assert(s@.skip(i as int).skip(1) =~= s@.skip(i + 1));
            }
            i = i + 1;
        } else {
            let start = i;
            i = i + 1;
            while i < n && !space_char(s.get_char(i))
                invariant
                    n == s@.len(),
                    start < i <= n,
                    forall|k: int| start <= k < i ==> !is_space(s@[k]),
                decreases n - i,
            {
                i = i + 1;
            }
            let tok = String::from_str(s.substring_char(start, i));
            proof {
                let tail = s@.skip(start as int);
                assert(forall|k: int| 0 <= k < i - start ==> tail[k] == s@[start + k]);
                lemma_ws_run(tail, Seq::empty(), i - start);
                assert(tail.skip(i - start) =~= s@.skip(i as int));
                assert(Seq::empty() + tail.take(i - start) =~= s@.subrange(
                    start as int,
                    i as int,
                ));
                if i < n {
                    assert(s@.skip(i as int)[0] == s@[i as int]);
                }
                lemma_ws_flush(s@.skip(i as int), s@.subrange(start as int, i as int));
                assert(toks@.push(tok).map_values(|t: String| t@) =~= toks@.map_values(
                    |t: String| t@,
                ).push(tok@));
                assert(toks@.map_values(|t: String| t@).push(tok@) + split_ws_rest(
                    s@.skip(i as int),
                    Seq::empty(),
                ) =~= toks@.map_values(|t: String| t@) + (seq![tok@] + split_ws_rest(
                    s@.skip(i as int),
                    Seq::empty(),
                )));
            }
            toks.push(tok);
        }
    }
    proof {
        assert(s@.skip(n as int) =~= Seq::<char>::empty());
        assert(toks@.map_values(|t: String| t@) + Seq::<Seq<char>>::empty() =~= toks@.map_values(
            |t: String| t@,
        ));
    }
    toks
}

/// Reading a run of non-separator characters extends the partial piece.
proof fn lemma_sep_run(s: Seq<char>, sep: char, cur: Seq<char>, m: int)
    requires
        0 <= m <= s.len(),
        forall|k: int| 0 <= k < m ==> s[k] != sep,
    ensures
        split_sep_rest(s, sep, cur) == split_sep_rest(s.skip(m), sep, cur + s.take(m)),
    decreases m,
{
    if m == 0 {
        assert(s.skip(0) == s);
        assert(cur + s.take(0) =~= cur);
    } else {
        lemma_sep_run(s.skip(1), sep, cur.push(s[0]), m - 1);
        assert(s.skip(1).skip(m - 1) =~= s.skip(m));
        assert(cur.push(s[0]) + s.skip(1).take(m - 1) =~= cur + s.take(m));
    }
}

/// Splits `s` at every occurrence of `sep`, keeping empty pieces.
pub fn split_on(s: &str, sep: char) -> (parts: Vec<String>)
    ensures
        parts@.map_values(|t: String| t@) == split_sep(s@, sep),
{
    let n = s.unicode_len();
    let mut parts: Vec<String> = Vec::new();
    let mut start: usize = 0;
    let mut i: usize = 0;
    proof {
        assert(s@.skip(0) == s@);
        assert(parts@.map_values(|t: String| t@) =~= Seq::<Seq<char>>::empty());
        assert(Seq::<Seq<char>>::empty() + split_sep(s@, sep) =~= split_sep(s@, sep));
    }
    while i < n
        invariant
            n == s@.len(),
            start <= i <= n,
            forall|k: int| start <= k < i ==> s@[k] != sep,
            parts@.map_values(|t: String| t@) + split_sep_rest(
                s@.skip(start as int),
                sep,
                Seq::empty(),
            ) == split_sep(s@, sep),
        decreases n - i,
    {
        if s.get_char(i) == sep {
            let piece = String::from_str(s.substring_char(start, i));
            proof {
                let tail = s@.skip(start as int);
                assert(forall|k: int| 0 <= k < i - start ==> tail[k] == s@[start + k]);
                lemma_sep_run(tail, sep, Seq::empty(), i - start);
                assert(tail.skip(i - start) =~= s@.skip(i as int));
                assert(Seq::empty() + tail.take(i - start) =~= s@.subrange(
                    start as int,
                    i as int,
                ));
                assert(s@.skip(i as int)[0] == s@[i as int]);
                assert(s@.skip(i as int).skip(1) =~= s@.skip(i + 1));
                assert(parts@.push(piece).map_values(|t: String| t@) =~= parts@.map_values(
                    |t: String| t@,
                ).push(piece@));
                assert(parts@.map_values(|t: String| t@).push(piece@) + split_sep_rest(
                    s@.skip(i + 1),
                    sep,
                    Seq::empty(),
                ) =~= parts@.map_values(|t: String| t@) + (seq![piece@] + split_sep_rest(
                    s@.skip(i + 1),
                    sep,
                    Seq::empty(),
                )));
            }
            parts.push(piece);
            i = i + 1;
            start = i;
        } else {
            i = i + 1;
        }
    }
    let piece = String::from_str(s.substring_char(start, n));
    proof {
        let tail = s@.skip(start as int);
        assert(forall|k: int| 0 <= k < n - start ==> tail[k] == s@[start + k]);
        lemma_sep_run(tail, sep, Seq::empty(), n - start);
        assert(tail.skip(n - start) =~= Seq::<char>::empty());
        assert(Seq::empty() + tail.take(n - start) =~= s@.subrange(start as int, n as int));
        assert(parts@.push(piece).map_values(|t: String| t@) =~= parts@.map_values(
            |t: String| t@,
        ).push(piece@));
        assert(parts@.map_values(|t: String| t@) + seq![piece@] =~= parts@.map_values(
            |t: String| t@,
        ).push(piece@));
    }
    parts.push(piece);
    parts
}

/// Reading a run of non-separator characters extends the prefix.
proof fn lemma_once_run(s: Seq<char>, sep: char, pre: Seq<char>, m: int)
    requires
        0 <= m <= s.len(),
        forall|k: int| 0 <= k < m ==> s[k] != sep,
    ensures
        split_once_rest(s, sep, pre) == split_once_rest(s.skip(m), sep, pre + s.take(m)),
    decreases m,
{
    if m == 0 {
        assert(s.skip(0) == s);
        assert(pre + s.take(0) =~= pre);
    } else {
        lemma_once_run(s.skip(1), sep, pre.push(s[0]), m - 1);
        assert(s.skip(1).skip(m - 1) =~= s.skip(m));
        assert(pre.push(s[0]) + s.skip(1).take(m - 1) =~= pre + s.take(m));
    }
}

/// Splits `s` at the first occurrence of `sep`, if there is one.
pub fn split_once_on(s: &str, sep: char) -> (r: Option<(String, String)>)
    ensures
        ({
            match split_once_at(s@, sep) {
                Some(p) => r is Some && r.unwrap().0@ == p.0 && r.unwrap().1@ == p.1,
                None => r is None,
            }
        }),
{
    let n = s.unicode_len();
    let mut i: usize = 0;
    while i < n
        invariant
            n == s@.len(),
            i <= n,
            forall|k: int| 0 <= k < i ==> s@[k] != sep,
        decreases n - i,
    {
        if s.get_char(i) == sep {
            let before = String::from_str(s.substring_char(0, i));
            let after = String::from_str(s.substring_char(i + 1, n));
            proof {
                lemma_once_run(s@, sep, Seq::empty(), i as int);
                assert(s@.skip(i as int)[0] == s@[i as int]);
                assert(Seq::empty() + s@.take(i as int) =~= s@.subrange(0, i as int));
                assert(s@.skip(i as int).skip(1) =~= s@.subrange(i + 1, n as int));
            }
            return Some((before, after));
        }
        i = i + 1;
    }
    proof {
        lemma_once_run(s@, sep, Seq::empty(), n as int);
        assert(s@.skip(n as int).len() == 0);
    }
    None
}

/// Character-by-character string equality.
pub fn str_eq(a: &str, b: &str) -> (r: bool)
    ensures
        r == (a@ == b@),
{
    let na = a.unicode_len();
    let nb = b.unicode_len();
    if na != nb {
        proof {
            assert(a@ != b@) by {
                if a@ == b@ {
                    assert(a@.len() == b@.len());
                }
            }
        }
        return false;
    }
    let mut i: usize = 0;
    while i < na
        invariant
            na == a@.len(),
            na == b@.len(),
            i <= na,
            forall|k: int| 0 <= k < i ==> a@[k] == b@[k],
        decreases na - i,
    {
        if a.get_char(i) != b.get_char(i) {
            proof {
                assert(a@ != b@) by {
                    if a@ == b@ {
                        assert(a@[i as int] == b@[i as int]);
                    }
                }
            }
            return false;
        }
        i = i + 1;
    }
    proof {
        assert(a@ =~= b@);
    }
    true
}

} // verus!
