//! Text helpers shared by the stages: splitting `+`-joined lists and
//! reading numbers.

use vstd::prelude::*;
use vstd::std_specs::iter::IteratorSpec;
use vstd::string::StrSliceExecFns;

verus! {

/// The views of a sequence of strings, in order.
pub open spec fn views_of(v: Seq<String>) -> Seq<Seq<char>> {
    v.map_values(|s: String| s@)
}

/// The pieces of `s` between its `+` characters, in order.
///
/// There is always one piece more than there are `+` characters, so the
/// empty text has the single piece `""` and `"a+"` has the pieces `"a"`, `""`.
pub open spec fn split_plus(s: Seq<char>) -> Seq<Seq<char>>
    decreases s.len(),
{
    if s.len() == 0 {
        seq![Seq::<char>::empty()]
    } else {
        let before = split_plus(s.drop_last());
        if s.last() == '+' {
            before.push(Seq::<char>::empty())
        } else {
            before.update(before.len() - 1, before.last().push(s.last()))
        }
    }
}

/// Splitting always yields at least one piece.
pub proof fn lemma_split_plus_nonempty(s: Seq<char>)
    ensures
        split_plus(s).len() >= 1,
    decreases s.len(),
{
    if s.len() > 0 {
        lemma_split_plus_nonempty(s.drop_last());
    }
}

/// A text without `+` is its own single piece.
pub proof fn lemma_split_plus_single(s: Seq<char>)
    requires
        !s.contains('+'),
    ensures
        split_plus(s) == seq![s],
    decreases s.len(),
{
    if s.len() == 0 {
        assert(s =~= Seq::<char>::empty());
    } else {
        let front = s.drop_last();
        assert(s[s.len() - 1] == s.last());
        assert(!front.contains('+')) by {
            if front.contains('+') {
                let i = choose|i: int| 0 <= i < front.len() && front[i] == '+';
                assert(s[i] == '+');
            }
        }
        lemma_split_plus_single(front);
        assert(front.push(s.last()) =~= s);
        assert(s.last() != '+');
        let before = split_plus(front);
        assert(before.last() == front);
        assert(before.update(before.len() - 1, s) =~= seq![s]);
    }
}

/// The pieces with a `+` between each two neighbours.
pub open spec fn join_plus(pieces: Seq<Seq<char>>) -> Seq<char>
    decreases pieces.len(),
{
    if pieces.len() == 0 {
        Seq::empty()
    } else if pieces.len() == 1 {
        pieces[0]
    } else {
        join_plus(pieces.drop_last()) + seq!['+'] + pieces.last()
    }
}

/// Splitting loses nothing and leaves no `+` in a piece: the pieces, joined
/// with `+`, are the text again.
pub proof fn lemma_split_plus_joins(s: Seq<char>)
    ensures
        join_plus(split_plus(s)) == s,
        forall|i: int|
            0 <= i < split_plus(s).len() ==> !(#[trigger] split_plus(s)[i]).contains('+'),
    decreases s.len(),
{
    let pieces = split_plus(s);
    if s.len() == 0 {
        assert(join_plus(pieces) =~= s);
    } else {
        let front = s.drop_last();
        let before = split_plus(front);
        let c = s.last();
        lemma_split_plus_joins(front);
        lemma_split_plus_nonempty(front);
        assert(front.push(c) =~= s);
        if c == '+' {
            assert(pieces.drop_last() =~= before);
            assert(join_plus(pieces) =~= s);
        } else {
            let grown = before.last().push(c);
            assert(!grown.contains('+')) by {
                if grown.contains('+') {
                    let i = choose|i: int| 0 <= i < grown.len() && grown[i] == '+';
                    assert(before.last()[i] == '+');
                }
            }
            if before.len() == 1 {
                assert(join_plus(pieces) =~= s);
            } else {
                assert(pieces.drop_last() =~= before.drop_last());
                assert(join_plus(pieces) =~= join_plus(before).push(c));
            }
        }
    }
}

/// Splits `s` at every `+`.
pub fn split_on_plus(s: &str) -> (pieces: Vec<String>)
    ensures
        views_of(pieces@) == split_plus(s@),
{
    let n: usize = s.unicode_len();
    let mut pieces: Vec<String> = Vec::new();
    let mut start: usize = 0;
    let mut i: usize = 0;
    proof {
        assert(s@.subrange(0, 0) =~= Seq::<char>::empty());
        assert(views_of(pieces@).push(s@.subrange(0, 0)) =~= split_plus(s@.subrange(0, 0)));
    }
    while i < n
        invariant
            n == s@.len(),
            start <= i <= n,
            views_of(pieces@).push(s@.subrange(start as int, i as int)) == split_plus(
                s@.subrange(0, i as int),
            ),
        decreases n - i,
    {
        let c = s.get_char(i);
        proof {
            let prefix = s@.subrange(0, i as int + 1);
            assert(prefix.drop_last() =~= s@.subrange(0, i as int));
            assert(prefix.last() == c);
            lemma_split_plus_nonempty(s@.subrange(0, i as int));
        }
        if c == '+' {
            let piece = s.substring_char(start, i).to_owned();
            let ghost before = pieces@;
            pieces.push(piece);
            proof {
                assert(views_of(pieces@) =~= views_of(before).push(
                    s@.subrange(start as int, i as int),
                ));
                assert(s@.subrange(i as int + 1, i as int + 1) =~= Seq::<char>::empty());
            }
            start = i + 1;
        } else {
            proof {
                let cur = views_of(pieces@).push(s@.subrange(start as int, i as int));
                assert(s@.subrange(start as int, i as int).push(c) =~= s@.subrange(
                    start as int,
                    i as int + 1,
                ));
                assert(cur.update(cur.len() - 1, cur.last().push(c)) =~= views_of(pieces@).push(
                    s@.subrange(start as int, i as int + 1),
                ));
            }
        }
        i = i + 1;
    }
    let piece = s.substring_char(start, n).to_owned();
    let ghost before = pieces@;
    pieces.push(piece);
    proof {
        assert(views_of(pieces@) =~= views_of(before).push(s@.subrange(start as int, n as int)));
        assert(s@.subrange(0, n as int) =~= s@);
    }
    pieces
}

/// Whether two texts hold the same characters.
pub fn text_eq(a: &str, b: &str) -> (same: bool)
    ensures
        same == (a@ == b@),
{
    let mut xs = a.chars();
    let mut ys = b.chars();
    let ghost mut done: int = 0;
    loop
        invariant
            0 <= done <= a@.len(),
            done <= b@.len(),
            xs.remaining() == a@.skip(done),
            ys.remaining() == b@.skip(done),
            a@.take(done) == b@.take(done),
            xs.obeys_prophetic_iter_laws(),
            ys.obeys_prophetic_iter_laws(),
        decreases a@.len() - done,
    {
        let x = xs.next();
        let y = ys.next();
        match (x, y) {
            (None, None) => {
                proof {
                    assert(a@ =~= a@.take(done));
                    assert(b@ =~= b@.take(done));
                }
                return true;
            },
            (Some(p), Some(q)) => {
                if p != q {
                    proof {
                        assert(a@[done] == p);
                        assert(b@[done] == q);
                    }
                    return false;
                }
                proof {
                    assert(a@.take(done + 1) =~= a@.take(done).push(p));
                    assert(b@.take(done + 1) =~= b@.take(done).push(q));
                    assert(a@.skip(done).drop_first() =~= a@.skip(done + 1));
                    assert(b@.skip(done).drop_first() =~= b@.skip(done + 1));
                    done = done + 1;
                }
            },
            _ => {
                return false;
            },
        }
    }
}

/// Whether `list` holds a string with the characters of `s`.
pub fn list_contains(list: &Vec<String>, s: &str) -> (found: bool)
    ensures
        found == views_of(list@).contains(s@),
{
    let mut i: usize = 0;
    while i < list.len()
        invariant
            i <= list.len(),
            forall|j: int| 0 <= j < i ==> views_of(list@)[j] != s@,
        decreases list.len() - i,
    {
        if text_eq(list[i].as_str(), s) {
            assert(views_of(list@)[i as int] == s@);
            return true;
        }
        i = i + 1;
    }
    false
}

/// The value of `c` as a digit: `0` to `9`, then the letters of either case
/// from ten on.
pub open spec fn digit_of(c: char) -> Option<nat> {
    let v = c as u32;
    if 48 <= v <= 57 {
        Some((v - 48) as nat)
    } else if 97 <= v <= 122 {
        Some((v - 87) as nat)
    } else if 65 <= v <= 90 {
        Some((v - 55) as nat)
    } else {
        None
    }
}

/// Whether every character is a digit below `radix`.
pub open spec fn all_digits(digits: Seq<char>, radix: nat) -> bool {
    forall|i: int|
        0 <= i < digits.len() ==> match digit_of(#[trigger] digits[i]) {
            Some(d) => d < radix,
            None => false,
        }
}

/// The number that the digits write in `radix`, the first digit weighing
/// most.
pub open spec fn number_of(digits: Seq<char>, radix: nat) -> nat
    decreases digits.len(),
{
    if digits.len() == 0 {
        0
    } else {
        let d = match digit_of(digits.last()) {
            Some(d) => d,
            None => 0,
        };
        number_of(digits.drop_last(), radix) * radix + d
    }
}

/// The number that `text` writes in `radix`: it is there where `text` is one
/// or more digits below `radix`, with no sign and nothing else, and the
/// number is at most `max`.
pub open spec fn parse_number(text: Seq<char>, radix: nat, max: nat) -> Option<nat> {
    if text.len() > 0 && all_digits(text, radix) && number_of(text, radix) <= max {
        Some(number_of(text, radix))
    } else {
        None
    }
}

/// Further digits never make a number smaller.
pub proof fn lemma_number_grows(digits: Seq<char>, radix: nat, n: int)
    requires
        0 <= n <= digits.len(),
        radix >= 1,
    ensures
        number_of(digits.take(n), radix) <= number_of(digits, radix),
    decreases digits.len() - n,
{
    if n == digits.len() {
        assert(digits.take(n) =~= digits);
    } else {
        assert(digits.drop_last().take(n) =~= digits.take(n));
        lemma_number_grows(digits.drop_last(), radix, n);
        let front = number_of(digits.drop_last(), radix);
        assert(front * radix >= front) by (nonlinear_arith)
            requires
                radix >= 1,
                front >= 0,
        ;
    }
}

/// Reads `text` as a number in `radix` that is at most `max`.
pub fn read_number(text: &str, radix: u32, max: u32) -> (number: Option<u32>)
    ensures
        number matches Some(n) ==> parse_number(text@, radix as nat, max as nat) == Some(n as nat),
        number is None ==> parse_number(text@, radix as nat, max as nat) is None,
{
    let mut xs = text.chars();
    let ghost mut done: int = 0;
    let mut value: u64 = 0;
    let mut any = false;
    proof {
        assert(text@.take(0) =~= Seq::<char>::empty());
    }
    loop
        invariant
            0 <= done <= text@.len(),
            xs.remaining() == text@.skip(done),
            xs.obeys_prophetic_iter_laws(),
            all_digits(text@.take(done), radix as nat),
            value == number_of(text@.take(done), radix as nat),
            value <= max,
            any == (done > 0),
        decreases text@.len() - done,
    {
        match xs.next() {
            None => {
                proof {
                    assert(text@.take(done) =~= text@);
                }
                if !any {
                    return None;
                }
                return Some(value as u32);
            },
            Some(c) => {
                let v: u32 = c as u32;
                let digit: u32 = if 48 <= v && v <= 57 {
                    v - 48
                } else if 97 <= v && v <= 122 {
                    v - 87
                } else if 65 <= v && v <= 90 {
                    v - 55
                } else {
                    proof {
                        assert(text@[done] == c);
                    }
                    return None;
                };
                proof {
                    assert(text@[done] == c);
                    assert(digit_of(c) == Some(digit as nat));
                }
                if digit >= radix {
                    return None;
                }
                proof {
                    let upto = text@.take(done + 1);
                    assert(upto.drop_last() =~= text@.take(done));
                    assert(upto.last() == c);
                    assert(value * radix <= 0xffff_ffff * 0xffff_ffff) by (nonlinear_arith)
                        requires
                            0 <= value <= 0xffff_ffff,
                            0 <= radix <= 0xffff_ffff,
                    ;
                    assert(text@.skip(done).drop_first() =~= text@.skip(done + 1));
                }
                let next: u64 = value * (radix as u64) + (digit as u64);
                if next > max as u64 {
                    proof {
                        lemma_number_grows(text@, radix as nat, done + 1);
                    }
                    return None;
                }
                value = next;
                any = true;
                proof {
                    done = done + 1;
                }
            },
        }
    }
}

/// The uppercase form of a text, as the standard library computes it from
/// the Unicode character tables.
pub uninterp spec fn uppercase_of(s: Seq<char>) -> Seq<char>;

/// `str::to_uppercase`: the result is the uppercase form of `s`, a function
/// of the characters of `s` alone.
#[verifier::external_body]
pub(crate) fn to_uppercase(s: &str) -> (upper: String)
    ensures
        upper@ == uppercase_of(s@),
{
    s.to_uppercase()
}

} // verus!
