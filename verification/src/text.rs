//! The small text operations the command protocol needs: words, decimal
//! numbers, comparisons.
use vstd::prelude::*;

verus! {

/// Whether a character is white space, as Unicode's `White_Space` property
/// says (`char::is_whitespace`).
pub open spec fn is_space(c: char) -> bool {
    ||| c == ' '
    ||| ('\u{9}' <= c && c <= '\u{d}')
    ||| c == '\u{85}'
    ||| c == '\u{a0}'
    ||| c == '\u{1680}'
    ||| ('\u{2000}' <= c && c <= '\u{200a}')
    ||| c == '\u{2028}'
    ||| c == '\u{2029}'
    ||| c == '\u{202f}'
    ||| c == '\u{205f}'
    ||| c == '\u{3000}'
}

/// Whether a character is white space.
pub fn space(c: char) -> (r: bool)
    ensures
        r == is_space(c),
{
    c == ' ' || ('\u{9}' <= c && c <= '\u{d}') || c == '\u{85}' || c == '\u{a0}' || c
        == '\u{1680}' || ('\u{2000}' <= c && c <= '\u{200a}') || c == '\u{2028}' || c
        == '\u{2029}' || c == '\u{202f}' || c == '\u{205f}' || c == '\u{3000}'
}

/// Splitting a text on white space, after its first `n` characters: the
/// words completed so far, and the word under way.
pub open spec fn split_state(s: Seq<char>, n: int) -> (Seq<Seq<char>>, Seq<char>)
    decreases n,
{
    if n <= 0 {
        (Seq::empty(), Seq::empty())
    } else {
        let (done, current) = split_state(s, n - 1);
        if is_space(s[n - 1]) {
            if current.len() > 0 {
                (done.push(current), Seq::empty())
            } else {
                (done, Seq::empty())
            }
        } else {
            (done, current.push(s[n - 1]))
        }
    }
}

/// The words of a text: its maximal runs of characters that are not white
/// space, in order (`str::split_whitespace`).
pub open spec fn words_of(s: Seq<char>) -> Seq<Seq<char>> {
    let (done, current) = split_state(s, s.len() as int);
    if current.len() > 0 {
        done.push(current)
    } else {
        done
    }
}

/// The texts of a list of words.
pub open spec fn texts(words: Seq<&str>) -> Seq<Seq<char>> {
    words.map_values(|w: &str| w@)
}

/// The words of a line, borrowed from it.
pub fn words<'a>(line: &'a str) -> (r: Vec<&'a str>)
    ensures
        texts(r@) == words_of(line@),
{
    let n = line.unicode_len();
    let mut out: Vec<&'a str> = Vec::new();
    let mut start: usize = 0;
    let mut i: usize = 0;
    proof {
        assert(texts(out@) =~= split_state(line@, 0).0);
    }
    while i < n
        invariant
            n == line@.len(),
            start <= i <= n,
            texts(out@) == split_state(line@, i as int).0,
            split_state(line@, i as int).1 == line@.subrange(start as int, i as int),
        decreases n - i,
    {
        let c = line.get_char(i);
        if space(c) {
            if start < i {
                let word = line.substring_char(start, i);
                let ghost before = out@;
                out.push(word);
                proof {
                    assert(texts(out@) =~= texts(before).push(word@));
                }
            }
            start = i + 1;
        }
        proof {
            if !is_space(c) {
                assert(line@.subrange(start as int, i + 1) =~= line@.subrange(
                    start as int,
                    i as int,
                ).push(c));
            } else {
                assert(line@.subrange(start as int, i + 1) =~= Seq::<char>::empty());
            }
        }
        i = i + 1;
    }
    if start < n {
        let word = line.substring_char(start, n);
        let ghost before = out@;
        out.push(word);
        proof {
            assert(texts(out@) =~= texts(before).push(word@));
        }
    }
    out
}

/// Whether two texts are the same.
pub fn same_text(a: &str, b: &str) -> (r: bool)
    ensures
        r == (a@ == b@),
{
    let n = a.unicode_len();
    if n != b.unicode_len() {
        return false;
    }
    let mut i: usize = 0;
    while i < n
        invariant
            n == a@.len(),
            n == b@.len(),
            i <= n,
            forall|k: int| 0 <= k < i ==> a@[k] == b@[k],
        decreases n - i,
    {
        if a.get_char(i) != b.get_char(i) {
            return false;
        }
        i = i + 1;
    }
    proof {
        assert(a@ =~= b@);
    }
    true
}

/// The code of a character with ASCII capitals lowered.
pub open spec fn ascii_lower(c: char) -> u32 {
    if 'A' <= c && c <= 'Z' {
        ((c as u32) + 32) as u32
    } else {
        c as u32
    }
}

/// Whether two texts are the same once ASCII capitals are lowered
/// (`str::eq_ignore_ascii_case`).
pub open spec fn same_ignoring_case(a: Seq<char>, b: Seq<char>) -> bool {
    a.len() == b.len() && forall|i: int| 0 <= i < a.len() ==> ascii_lower(a[i]) == ascii_lower(b[i])
}

/// The code of a character with ASCII capitals lowered.
fn lower(c: char) -> (r: u32)
    ensures
        r == ascii_lower(c),
{
    if 'A' <= c && c <= 'Z' {
        (c as u32) + 32
    } else {
        c as u32
    }
}

/// Whether two texts are the same once ASCII capitals are lowered.
pub fn eq_ignore_ascii_case(a: &str, b: &str) -> (r: bool)
    ensures
        r == same_ignoring_case(a@, b@),
{
    let n = a.unicode_len();
    if n != b.unicode_len() {
        return false;
    }
    let mut i: usize = 0;
    while i < n
        invariant
            n == a@.len(),
            n == b@.len(),
            i <= n,
            forall|k: int| 0 <= k < i ==> ascii_lower(a@[k]) == ascii_lower(b@[k]),
        decreases n - i,
    {
        if lower(a.get_char(i)) != lower(b.get_char(i)) {
            return false;
        }
        i = i + 1;
    }
    true
}

/// The value of a string of decimal digits.
pub open spec fn digits_value(s: Seq<char>) -> int
    decreases s.len(),
{
    if s.len() == 0 {
        0
    } else {
        digits_value(s.drop_last()) * 10 + (s.last() as int - '0' as int)
    }
}

/// Whether every character is a decimal digit.
pub open spec fn all_digits(s: Seq<char>) -> bool {
    forall|i: int| 0 <= i < s.len() ==> '0' <= #[trigger] s[i] && s[i] <= '9'
}

/// The unsigned integer a text writes, if it writes one: an optional `+`,
/// then one digit or more.
pub open spec fn unsigned_value(s: Seq<char>) -> Option<int> {
    let body = if s.len() > 0 && s[0] == '+' {
        s.subrange(1, s.len() as int)
    } else {
        s
    };
    if body.len() > 0 && all_digits(body) {
        Some(digits_value(body))
    } else {
        None
    }
}

proof fn lemma_digits_nonneg(s: Seq<char>)
    requires
        all_digits(s),
    ensures
        digits_value(s) >= 0,
    decreases s.len(),
{
    if s.len() > 0 {
        assert(all_digits(s.drop_last())) by {
            assert forall|i: int| 0 <= i < s.drop_last().len() implies '0' <= #[trigger] s.drop_last()[i]
                && s.drop_last()[i] <= '9' by {
                assert(s.drop_last()[i] == s[i]);
            }
        }
        lemma_digits_nonneg(s.drop_last());
    }
}

/// An unsigned value is never negative.
pub proof fn lemma_unsigned_nonneg(s: Seq<char>)
    ensures
        unsigned_value(s) matches Some(v) ==> v >= 0,
{
    let body = if s.len() > 0 && s[0] == '+' {
        s.subrange(1, s.len() as int)
    } else {
        s
    };
    if body.len() > 0 && all_digits(body) {
        lemma_digits_nonneg(body);
    }
}

/// Reads an unsigned integer no larger than `max` (`str::parse` of an
/// unsigned type): `None` if the text writes none, or a larger one.
pub fn parse_unsigned(s: &str, max: u64) -> (r: Option<u64>)
    ensures
        r == (match unsigned_value(s@) {
            Some(v) => if v <= max {
                Some(v as u64)
            } else {
                None::<u64>
            },
            None => None::<u64>,
        }),
{
    let n = s.unicode_len();
    let start: usize = if n > 0 && s.get_char(0) == '+' {
        1
    } else {
        0
    };
    let ghost body = s@.subrange(start as int, n as int);
    proof {
        if n > 0 && s@[0] == '+' {
            assert(body =~= s@.subrange(1, s@.len() as int));
        } else {
            assert(body =~= s@);
        }
    }
    if start >= n {
        return None;
    }
    let mut value: u64 = 0;
    let mut i: usize = start;
    let mut overflow = false;
    while i < n
        invariant
            n == s@.len(),
            start <= i <= n,
            start < n,
            body == s@.subrange(start as int, n as int),
            body == (if s@.len() > 0 && s@[0] == '+' {
                s@.subrange(1, s@.len() as int)
            } else {
                s@
            }),
            all_digits(s@.subrange(start as int, i as int)),
            !overflow ==> value == digits_value(s@.subrange(start as int, i as int)),
            !overflow ==> value <= max,
            overflow ==> digits_value(s@.subrange(start as int, i as int)) > max,
        decreases n - i,
    {
        let c = s.get_char(i);
        if c < '0' || c > '9' {
            proof {
                assert(!all_digits(body)) by {
                    assert(body[i - start] == c);
                }
            }
            return None;
        }
        let d = (c as u32 - '0' as u32) as u64;
        let ghost prefix = s@.subrange(start as int, i as int);
        proof {
            assert(s@.subrange(start as int, i + 1).drop_last() =~= prefix);
            assert(s@.subrange(start as int, i + 1).last() == c);
            assert(all_digits(s@.subrange(start as int, i + 1))) by {
                assert forall|k: int| 0 <= k < s@.subrange(start as int, i + 1).len() implies '0'
                    <= #[trigger] s@.subrange(start as int, i + 1)[k] && s@.subrange(
                    start as int,
                    i + 1,
                )[k] <= '9' by {
                    if k < i - start {
                        assert(s@.subrange(start as int, i + 1)[k] == prefix[k]);
                    }
                }
            }
            lemma_digits_nonneg(prefix);
        }
        if !overflow {
            if d > max || value > (max - d) / 10 {
                overflow = true;
                proof {
                    if d <= max {
                        assert(value * 10 + d > max) by (nonlinear_arith)
                            requires
                                value > (max - d) / 10,
                                d <= max,
                        ;
                    }
                }
            } else {
                proof {
                    assert(value * 10 + d <= max) by (nonlinear_arith)
                        requires
                            value <= (max - d) / 10,
                            d <= max,
                    ;
                }
                value = value * 10 + d;
            }
        }
        i = i + 1;
    }
    proof {
        assert(s@.subrange(start as int, n as int) == body);
    }
    if overflow {
        None
    } else {
        Some(value)
    }
}

/// Words joined with single spaces between them.
pub open spec fn joined(words: Seq<Seq<char>>) -> Seq<char>
    decreases words.len(),
{
    if words.len() == 0 {
        Seq::empty()
    } else if words.len() == 1 {
        words[0]
    } else {
        joined(words.drop_last()) + seq![' '] + words.last()
    }
}

/// Words joined with single spaces between them (`join(" ")`).
pub fn join(words: &[&str]) -> (r: String)
    ensures
        r@ == joined(texts(words@)),
{
    let mut out = String::new();
    let mut i: usize = 0;
    while i < words.len()
        invariant
            i <= words@.len(),
            out@ == joined(texts(words@.subrange(0, i as int))),
        decreases words@.len() - i,
    {
        let ghost before = words@.subrange(0, i as int);
        proof {
            assert(texts(words@.subrange(0, i + 1)).drop_last() =~= texts(before));
            assert(texts(words@.subrange(0, i + 1)).last() == words@[i as int]@);
        }
        if i > 0 {
            out.append(" ");
            proof {
                reveal_strlit(" ");
            }
        }
        out.append(words[i]);
        proof {
            if i == 0 {
                assert(texts(words@.subrange(0, 1)) =~= seq![words@[0]@]);
            }
        }
        i = i + 1;
    }
    proof {
        assert(words@.subrange(0, words@.len() as int) =~= words@);
    }
    out
}

} // verus!
