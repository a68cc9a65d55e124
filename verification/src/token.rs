//! Whitespace tokenization.
//!
//! A token is a maximal run of non-whitespace characters; case and
//! punctuation are preserved exactly. `tokens_of` is the mathematical
//! splitting and `tokenize` the executable one.

use vstd::prelude::*;

verus! {

/// The Unicode `White_Space` characters, the ones `str::split_whitespace`
/// splits on.
pub open spec fn is_ws_char(c: char) -> bool {
    ||| c == '\u{0009}'
    ||| c == '\u{000A}'
    ||| c == '\u{000B}'
    ||| c == '\u{000C}'
    ||| c == '\u{000D}'
    ||| c == '\u{0020}'
    ||| c == '\u{0085}'
    ||| c == '\u{00A0}'
    ||| c == '\u{1680}'
    ||| c == '\u{2000}'
    ||| c == '\u{2001}'
    ||| c == '\u{2002}'
    ||| c == '\u{2003}'
    ||| c == '\u{2004}'
    ||| c == '\u{2005}'
    ||| c == '\u{2006}'
    ||| c == '\u{2007}'
    ||| c == '\u{2008}'
    ||| c == '\u{2009}'
    ||| c == '\u{200A}'
    ||| c == '\u{2028}'
    ||| c == '\u{2029}'
    ||| c == '\u{202F}'
    ||| c == '\u{205F}'
    ||| c == '\u{3000}'
}

/// Executable test for `is_ws_char`.
pub fn is_whitespace_char(c: char) -> (r: bool)
    ensures
        r == is_ws_char(c),
{
    c == '\u{0009}' || c == '\u{000A}' || c == '\u{000B}' || c == '\u{000C}' || c == '\u{000D}'
        || c == '\u{0020}' || c == '\u{0085}' || c == '\u{00A0}' || c == '\u{1680}'
        || c == '\u{2000}' || c == '\u{2001}' || c == '\u{2002}' || c == '\u{2003}'
        || c == '\u{2004}' || c == '\u{2005}' || c == '\u{2006}' || c == '\u{2007}'
        || c == '\u{2008}' || c == '\u{2009}' || c == '\u{200A}' || c == '\u{2028}'
        || c == '\u{2029}' || c == '\u{202F}' || c == '\u{205F}' || c == '\u{3000}'
}

/// Left-to-right splitting of `s`, carrying the token under construction
/// (`cur`) and the tokens already finished (`acc`).
pub open spec fn split_ws_from(s: Seq<char>, cur: Seq<char>, acc: Seq<Seq<char>>) -> Seq<Seq<char>>
    decreases s.len(),
{
    if s.len() == 0 {
        if cur.len() == 0 {
            acc
        } else {
            acc.push(cur)
        }
    } else if is_ws_char(s[0]) {
        if cur.len() == 0 {
            split_ws_from(s.drop_first(), Seq::empty(), acc)
        } else {
            split_ws_from(s.drop_first(), Seq::empty(), acc.push(cur))
        }
    } else {
        split_ws_from(s.drop_first(), cur.push(s[0]), acc)
    }
}

/// The tokens of `s`: its maximal whitespace-delimited substrings, in order.
pub open spec fn tokens_of(s: Seq<char>) -> Seq<Seq<char>> {
    split_ws_from(s, Seq::empty(), Seq::empty())
}

/// Split `content` into its whitespace-delimited tokens, left to right.
pub fn tokenize(content: &str) -> (r: Vec<Vec<char>>)
    ensures
        r.deep_view() == tokens_of(content@),
{
    let ghost s = content@;
    let n = content.unicode_len();
    let mut acc: Vec<Vec<char>> = Vec::new();
    let mut cur: Vec<char> = Vec::new();
    let mut i: usize = 0;
    proof {
        assert(s.skip(0) =~= s);
        assert(acc.deep_view() =~= Seq::<Seq<char>>::empty());
    }
    while i < n
        invariant
            n == s.len(),
            i <= n,
            s == content@,
            split_ws_from(s.skip(i as int), cur@, acc.deep_view()) == tokens_of(s),
        decreases n - i,
    {
        let c = content.get_char(i);
        proof {
            assert(s.skip(i as int)[0] == s[i as int]);
            assert(s.skip(i as int).drop_first() =~= s.skip(i as int + 1));
        }
        if is_whitespace_char(c) {
            if cur.len() > 0 {
                let ghost acc0 = acc.deep_view();
                let ghost t = cur@;
                acc.push(cur);
                cur = Vec::new();
                proof {
                    assert(acc.deep_view() =~~= acc0.push(t));
                }
            } else {
                proof {
                    assert(cur@ =~= Seq::<char>::empty());
                }
            }
        } else {
            cur.push(c);
        }
        i = i + 1;
    }
    proof {
        assert(s.skip(n as int) =~= Seq::<char>::empty());
    }
    if cur.len() > 0 {
        let ghost acc0 = acc.deep_view();
        let ghost t = cur@;
        acc.push(cur);
        proof {
            assert(acc.deep_view() =~~= acc0.push(t));
        }
    } else {
        proof {
            assert(cur@ =~= Seq::<char>::empty());
        }
    }
    acc
}

} // verus!
