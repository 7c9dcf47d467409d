//! What holds of every text.

use crate::text;
use vstd::prelude::*;

verus! {

// ---------------------------------------------------------------------------
// Searching
// ---------------------------------------------------------------------------

/// A text occurs in whatever is written round it.
pub proof fn occurs_in_the_middle(before: Seq<char>, part: Seq<char>, after: Seq<char>)
    ensures
        text::occurs_at(before + part + after, part, before.len() as int),
        text::occurs_in(before + part + after, part),
{
    let all = before + part + after;
    let at = before.len() as int;
    assert(all.subrange(at, at + part.len()) =~= part);
    assert(text::occurs_at(all, part, at));
}

/// Where a text occurs, something stands before it and something after it.
pub proof fn occurrence_splits(s: Seq<char>, part: Seq<char>)
    requires
        text::occurs_in(s, part),
    ensures
        exists|before: Seq<char>, after: Seq<char>| s == #[trigger] (before + part + after),
{
    let at = choose|at: int| #[trigger] text::occurs_at(s, part, at);
    let before = s.take(at);
    let after = s.skip(at + part.len());
    assert(s =~= before + s.subrange(at, at + part.len()) + after);
}

/// What occurs in a part of a text occurs in the text.
pub proof fn occurrence_is_transitive(s: Seq<char>, part: Seq<char>, inner: Seq<char>)
    requires
        text::occurs_in(s, part),
        text::occurs_in(part, inner),
    ensures
        text::occurs_in(s, inner),
{
    let i = choose|at: int| #[trigger] text::occurs_at(s, part, at);
    let j = choose|at: int| #[trigger] text::occurs_at(part, inner, at);
    assert(s.subrange(i + j, i + j + inner.len()) =~= s.subrange(i, i + part.len()).subrange(
        j,
        j + inner.len(),
    ));
    assert(text::occurs_at(s, inner, i + j));
}

/// A text begins with each of its beginnings and with nothing else.
pub proof fn beginnings(s: Seq<char>, part: Seq<char>, rest: Seq<char>)
    ensures
        text::begins_with(part + rest, part),
        text::begins_with(s, part) ==> s == part + s.skip(part.len() as int),
{
    assert((part + rest).subrange(0, part.len() as int) =~= part);
    if text::begins_with(s, part) {
        assert(s =~= s.subrange(0, part.len() as int) + s.skip(part.len() as int));
    }
}

/// A text ends with each of its ends and with nothing else.
pub proof fn endings(s: Seq<char>, part: Seq<char>, rest: Seq<char>)
    ensures
        text::finishes_with(rest + part, part),
        text::finishes_with(s, part) ==> s == s.take(s.len() - part.len()) + part,
{
    assert((rest + part).subrange(rest.len() as int, (rest + part).len() as int) =~= part);
    if text::finishes_with(s, part) {
        let at = s.len() - part.len();
        assert(s =~= s.take(at) + s.subrange(at, s.len() as int));
    }
}

// ---------------------------------------------------------------------------
// The order of texts
// ---------------------------------------------------------------------------

/// A common beginning does not count for the order.
pub proof fn common_beginning_does_not_count(p: Seq<char>, a: Seq<char>, b: Seq<char>)
    ensures
        text::lex_lt(p + a, p + b) == text::lex_lt(a, b),
    decreases p.len(),
{
    if p.len() == 0 {
        assert(p + a =~= a);
        assert(p + b =~= b);
    } else {
        common_beginning_does_not_count(p.drop_first(), a, b);
        assert((p + a).drop_first() =~= p.drop_first() + a);
        assert((p + b).drop_first() =~= p.drop_first() + b);
    }
}

/// After a common beginning the first characters that differ decide the order,
/// and a text that has ended comes before one that goes on.
pub proof fn first_difference_decides(p: Seq<char>, x: char, y: char, a: Seq<char>, b: Seq<char>)
    requires
        x != y,
    ensures
        text::lex_lt(p + seq![x] + a, p + seq![y] + b) <==> (x as u32) < (y as u32),
        text::lex_lt(p, p + seq![x] + a),
        !text::lex_lt(p + seq![x] + a, p),
{
    let ax = seq![x] + a;
    let by = seq![y] + b;
    assert(p + seq![x] + a =~= p + ax);
    assert(p + seq![y] + b =~= p + by);
    common_beginning_does_not_count(p, ax, by);
    common_beginning_does_not_count(p, seq![], ax);
    common_beginning_does_not_count(p, ax, seq![]);
    assert(p + Seq::<char>::empty() =~= p);
    assert(p + seq![] =~= p);
    assert(ax[0] == x && by[0] == y);
}

// ---------------------------------------------------------------------------
// Splitting
// ---------------------------------------------------------------------------

/// The parts put together again, with `c` between them.
pub open spec fn rejoined(parts: Seq<Seq<char>>, c: char) -> Seq<char>
    decreases parts.len(),
{
    if parts.len() == 0 {
        seq![]
    } else if parts.len() == 1 {
        parts[0]
    } else {
        rejoined(parts.drop_last(), c).push(c) + parts.last()
    }
}

/// Split at `c`, a text has at least one piece, no piece has a `c` in it, and
/// with a `c` between them the pieces are the text again.
pub proof fn pieces_make_the_text(s: Seq<char>, c: char)
    ensures
        text::pieces(s, c).len() > 0,
        rejoined(text::pieces(s, c), c) == s,
        forall|i: int|
            0 <= i < text::pieces(s, c).len() ==> !(#[trigger] text::pieces(s, c)[i]).contains(c),
    decreases s.len(),
{
    let all = text::pieces(s, c);
    if s.len() == 0 {
        assert(all =~= seq![seq![]]);
        assert(rejoined(all, c) =~= s);
    } else {
        let shorter = s.drop_last();
        let before = text::pieces(shorter, c);
        pieces_make_the_text(shorter, c);
        if s.last() == c {
            assert(all.drop_last() =~= before);
            assert(rejoined(all, c) =~= shorter.push(c));
            assert(shorter.push(c) =~= s);
        } else {
            assert(all.drop_last() =~= before.drop_last());
            assert(!before.last().contains(c));
            assert(all.last() == before.last().push(s.last()));
            if before.len() == 1 {
                assert(rejoined(before, c) == before[0]);
                assert(rejoined(all, c) == all[0]);
            }
            assert(rejoined(all, c) =~= rejoined(before, c).push(s.last()));
            assert(shorter.push(s.last()) =~= s);
        }
        assert forall|i: int| 0 <= i < all.len() implies !(#[trigger] all[i]).contains(c) by {
            if i < before.len() - 1 {
                assert(all[i] == before[i]);
            } else if s.last() == c && i == before.len() - 1 {
                assert(all[i] == before[i]);
            } else if all[i].contains(c) {
                let k = all[i].index_of(c);
                assert(all[i][k] == c);
                assert(before.last()[k] == c);
            }
        }
    }
}

/// Texts on the two sides of a `c` are split on their own.
pub proof fn sides_are_split_on_their_own(a: Seq<char>, c: char, b: Seq<char>)
    ensures
        text::pieces(a.push(c) + b, c) == text::pieces(a, c) + text::pieces(b, c),
    decreases b.len(),
{
    let s = a.push(c) + b;
    pieces_make_the_text(a, c);
    if b.len() == 0 {
        assert(s.drop_last() =~= a);
        assert(text::pieces(s, c) =~= text::pieces(a, c) + text::pieces(b, c));
    } else {
        sides_are_split_on_their_own(a, c, b.drop_last());
        pieces_make_the_text(b.drop_last(), c);
        assert(s.drop_last() =~= a.push(c) + b.drop_last());
        assert(s.last() == b.last());
        assert(text::pieces(s, c) =~= text::pieces(a, c) + text::pieces(b, c));
    }
}

/// A text without `c` is one piece.
pub proof fn undivided_is_one_piece(s: Seq<char>, c: char)
    requires
        !s.contains(c),
    ensures
        text::pieces(s, c) == seq![s],
    decreases s.len(),
{
    if s.len() > 0 {
        assert(s.last() != c) by {
            assert(s[s.len() - 1] == s.last());
        }
        assert forall|k: int| 0 <= k < s.len() - 1 implies s.drop_last()[k] != c by {
            assert(s[k] != c);
        }
        undivided_is_one_piece(s.drop_last(), c);
        let before = text::pieces(s.drop_last(), c);
        assert(before.last() == s.drop_last());
        assert(s.drop_last().push(s.last()) =~= s);
        assert(text::pieces(s, c) =~= seq![s]);
    } else {
        assert(s =~= Seq::<char>::empty());
        assert(text::pieces(s, c) =~= seq![s]);
    }
}

/// A text starts with the line before its first newline, without a carriage
/// return at the line's end; the lines of the rest follow.
pub proof fn first_line(line: Seq<char>, rest: Seq<char>)
    requires
        !line.contains('\n'),
    ensures
        text::lines(line.push('\n') + rest) == seq![
            if line.len() > 0 && line.last() == '\r' {
                line.drop_last()
            } else {
                line
            },
        ] + text::lines(rest),
{
    let s = line.push('\n') + rest;
    undivided_is_one_piece(line, '\n');
    sides_are_split_on_their_own(line, '\n', rest);
    pieces_make_the_text(rest, '\n');
    let all = text::pieces(s, '\n');
    let tail = text::pieces(rest, '\n');
    assert(all =~= seq![line] + tail);
    assert(all.last() == tail.last());
    assert(text::lines(s) =~= seq![text::without_return(line)] + text::lines(rest));
}

/// What comes after the last newline is a line too, as it is, unless it is
/// empty.
pub proof fn last_line(line: Seq<char>)
    requires
        !line.contains('\n'),
    ensures
        text::lines(line) == if line.len() == 0 {
            Seq::<Seq<char>>::empty()
        } else {
            seq![line]
        },
{
    undivided_is_one_piece(line, '\n');
    let all = text::pieces(line, '\n');
    assert(all.drop_last() =~= Seq::<Seq<char>>::empty());
    assert(text::lines(line) =~= if line.len() == 0 {
        Seq::<Seq<char>>::empty()
    } else {
        seq![line]
    });
}

// ---------------------------------------------------------------------------
// Trimming
// ---------------------------------------------------------------------------

/// All of `s` is white space.
pub open spec fn blank(s: Seq<char>) -> bool {
    forall|i: int| 0 <= i < s.len() ==> text::white_space(#[trigger] s[i])
}

/// Blanks, tabs and line ends are white space; the visible characters of ASCII
/// are not.
pub proof fn white_space_of_ascii(c: char)
    ensures
        c == ' ' || c == '\t' || c == '\n' || c == '\r' ==> text::white_space(c),
        '!' as u32 <= c as u32 <= '~' as u32 ==> !text::white_space(c),
        (c as u32) < 0x9 ==> !text::white_space(c),
{
}

proof fn start_is_blank(s: Seq<char>)
    ensures
        ({
            let r = text::trimmed_start(s);
            &&& r.len() <= s.len()
            &&& r == s.skip(s.len() - r.len())
            &&& blank(s.take(s.len() - r.len()))
            &&& r.len() > 0 ==> !text::white_space(r[0])
        }),
    decreases s.len(),
{
    let r = text::trimmed_start(s);
    if s.len() > 0 && text::white_space(s[0]) {
        let t = s.drop_first();
        start_is_blank(t);
        assert(r =~= s.skip(s.len() - r.len()));
        let gone = s.take(s.len() - r.len());
        assert forall|i: int| 0 <= i < gone.len() implies text::white_space(#[trigger] gone[i]) by {
            if i > 0 {
                assert(t.take(t.len() - r.len())[i - 1] == gone[i]);
            }
        }
    } else {
        assert(s.skip(0) =~= s);
    }
}

proof fn end_is_blank(s: Seq<char>)
    ensures
        ({
            let r = text::trimmed_end(s);
            &&& r.len() <= s.len()
            &&& r == s.take(r.len() as int)
            &&& blank(s.skip(r.len() as int))
            &&& r.len() > 0 ==> !text::white_space(r.last())
        }),
    decreases s.len(),
{
    let r = text::trimmed_end(s);
    if s.len() > 0 && text::white_space(s.last()) {
        let t = s.drop_last();
        end_is_blank(t);
        assert(r =~= s.take(r.len() as int));
        let gone = s.skip(r.len() as int);
        assert forall|i: int| 0 <= i < gone.len() implies text::white_space(#[trigger] gone[i]) by {
            if i < gone.len() - 1 {
                assert(t.skip(r.len() as int)[i] == gone[i]);
            }
        }
    } else {
        assert(s.take(s.len() as int) =~= s);
    }
}

/// A trimmed text neither starts nor ends with white space, and nothing but
/// white space was taken off, in front and behind.
pub proof fn trimming_takes_off_white_space(s: Seq<char>)
    ensures
        exists|before: Seq<char>, after: Seq<char>| s == #[trigger] (before + text::trimmed(s)
            + after) && blank(before) && blank(after),
        text::trimmed(s).len() > 0 ==> !text::white_space(text::trimmed(s)[0])
            && !text::white_space(text::trimmed(s).last()),
{
    let front = text::trimmed_start(s);
    start_is_blank(s);
    end_is_blank(front);
    let r = text::trimmed(s);
    let before = s.take(s.len() - front.len());
    let after = front.skip(r.len() as int);
    assert(s =~= before + front);
    assert(front =~= r + after);
    assert(s =~= before + r + after);
}

// ---------------------------------------------------------------------------
// Numbers
// ---------------------------------------------------------------------------

proof fn digit_reads_back(d: int)
    requires
        0 <= d < 10,
    ensures
        text::digit_value(text::digit(d)) == Some(d as nat),
        text::digit(d) != '+',
        d > 0 ==> text::digit(d) != '0',
{
}

proof fn digits_read_back(n: nat)
    ensures
        text::decimal(n).len() > 0,
        text::digits_value(text::decimal(n)) == Some(n),
        text::decimal(n)[0] != '+',
        n > 0 ==> text::decimal(n)[0] != '0',
    decreases n,
{
    let all = text::decimal(n);
    if n < 10 {
        digit_reads_back(n as int);
        assert(all.drop_last() =~= Seq::<char>::empty());
        assert(text::digits_value(all.drop_last()) == Some(0nat));
    } else {
        digits_read_back(n / 10);
        digit_reads_back((n % 10) as int);
        assert(all.drop_last() =~= text::decimal(n / 10));
    }
}

/// A number in decimal reads back as itself, with or without a plus sign before
/// it, and has no zero in front but the one of zero.
pub proof fn decimal_reads_back(n: nat)
    ensures
        text::number(text::decimal(n)) == Some(n),
        text::number(seq!['+'] + text::decimal(n)) == Some(n),
        n > 0 ==> text::decimal(n)[0] != '0',
{
    digits_read_back(n);
    assert((seq!['+'] + text::decimal(n)).drop_first() =~= text::decimal(n));
}

/// A text that stands for a number has nothing but digits after an optional
/// plus sign, and a digit more at its end makes it ten times as large and adds
/// the digit.
pub proof fn numbers_are_digits(s: Seq<char>, d: int)
    requires
        text::number(s) is Some,
        0 <= d < 10,
    ensures
        s.len() > 0,
        forall|i: int| 0 <= i < s.len() ==> '0' as u32 <= (#[trigger] s[i]) as u32 <= '9' as u32 || (i
            == 0 && s[i] == '+'),
        text::number(s.push(text::digit(d))) == Some((text::number(s)->0 * 10 + d) as nat),
{
    let digits = if s[0] == '+' { s.drop_first() } else { s };
    all_digits(digits);
    assert forall|i: int| 0 <= i < s.len() implies '0' as u32 <= (#[trigger] s[i]) as u32
        <= '9' as u32 || (i == 0 && s[i] == '+') by {
        if s[0] != '+' {
            assert(digits[i] == s[i]);
        } else if i > 0 {
            assert(digits[i - 1] == s[i]);
        }
    }
    digit_reads_back(d);
    let more = s.push(text::digit(d));
    let more_digits = if more[0] == '+' { more.drop_first() } else { more };
    assert(more_digits =~= digits.push(text::digit(d)));
    assert(more_digits.drop_last() =~= digits);
}

proof fn all_digits(s: Seq<char>)
    requires
        text::digits_value(s) is Some,
    ensures
        forall|i: int| 0 <= i < s.len() ==> '0' as u32 <= (#[trigger] s[i]) as u32 <= '9' as u32,
    decreases s.len(),
{
    if s.len() > 0 {
        all_digits(s.drop_last());
        assert forall|i: int| 0 <= i < s.len() implies '0' as u32 <= (#[trigger] s[i]) as u32
            <= '9' as u32 by {
            if i < s.len() - 1 {
                assert(s.drop_last()[i] == s[i]);
            }
        }
    }
}

} // verus!
