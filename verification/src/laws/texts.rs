//! What holds of texts: case, trimming, pieces, lines and numerals.
use vstd::prelude::*;

use crate::text;

verus! {

/// Lower case moves the letters `A` to `Z` by thirty-two places and leaves everything
/// else, and every place, as it was.
pub proof fn lower_case_changes_capitals_only(s: Seq<char>)
    ensures
        text::lower(s).len() == s.len(),
        forall|i: int|
            #![trigger s[i]]
            0 <= i < s.len() ==> if 65 <= s[i] as int <= 90 {
                text::lower(s)[i] as int == s[i] as int + 32
            } else {
                text::lower(s)[i] == s[i]
            },
{
}

/// The code points of white space.
pub open spec fn white_space() -> Seq<int> {
    seq![
        9,
        10,
        11,
        12,
        13,
        32,
        133,
        160,
        5760,
        8192,
        8193,
        8194,
        8195,
        8196,
        8197,
        8198,
        8199,
        8200,
        8201,
        8202,
        8232,
        8233,
        8239,
        8287,
        12288,
    ]
}

/// White space is what Unicode calls so.
pub proof fn white_space_is_a_list(c: char)
    ensures
        text::is_space(c) <==> white_space().contains(c as int),
{
    let w = white_space();
    if text::is_space(c) {
        let n = c as int;
        let i = if n <= 13 {
            n - 9
        } else if n == 32 {
            5
        } else if n == 133 {
            6
        } else if n == 160 {
            7
        } else if n == 5760 {
            8
        } else if n <= 8202 {
            n - 8192 + 9
        } else if n == 8232 {
            20
        } else if n == 8233 {
            21
        } else if n == 8239 {
            22
        } else if n == 8287 {
            23
        } else {
            24
        };
        assert(w[i] == n);
    }
}

/// The part of the text from `from` to `to` has white space before and after it and none
/// at its own ends.
pub open spec fn stands_between_spaces(s: Seq<char>, from: int, to: int) -> bool {
    &&& 0 <= from <= to <= s.len()
    &&& forall|i: int| 0 <= i < from ==> white_space().contains(#[trigger] s[i] as int)
    &&& forall|i: int| to <= i < s.len() ==> white_space().contains(#[trigger] s[i] as int)
    &&& from < to ==> !white_space().contains(s[from] as int) && !white_space().contains(
        s[to - 1] as int,
    )
}

/// Trimming cuts off the white space at both ends, all of it and nothing else.
pub proof fn trimming_cuts_white_space_only(s: Seq<char>)
    ensures
        exists|from: int, to: int| #[trigger]
            stands_between_spaces(s, from, to) && text::trimmed(s) == s.subrange(from, to),
{
    let a = text::trim_start(s, text::spaces());
    let r = text::trim_end(a, text::spaces());
    text::lemma_trim_start(s, text::spaces());
    text::lemma_trim_end(a, text::spaces());
    let from = s.len() - a.len();
    let to = from + r.len();
    assert forall|i: int| 0 <= i < from implies white_space().contains(#[trigger] s[i] as int) by {
        assert(text::spaces()(s[i]));
        white_space_is_a_list(s[i]);
    }
    assert forall|i: int| to <= i < s.len() implies white_space().contains(
        #[trigger] s[i] as int,
    ) by {
        assert(a[i - from] == s[i]);
        assert(text::spaces()(a[i - from]));
        white_space_is_a_list(s[i]);
    }
    if from < to {
        assert(r.last() == s[to - 1]);
        assert(a.first() == s[from]);
        white_space_is_a_list(s[from]);
        white_space_is_a_list(s[to - 1]);
    }
    assert(stands_between_spaces(s, from, to));
    assert(s.subrange(from, to) =~= r);
}

/// What is cut off at an end is one character, all of it there and nothing else.
pub proof fn trimming_one_character(s: Seq<char>, x: char)
    ensures
        exists|n: int|
            {
                &&& 0 <= n <= s.len()
                &&& text::trim_start(s, text::only(x)) == #[trigger] s.skip(n)
                &&& forall|i: int| 0 <= i < n ==> #[trigger] s[i] == x
                &&& n < s.len() ==> s[n] != x
            },
        exists|n: int|
            {
                &&& 0 <= n <= s.len()
                &&& text::trim_end(s, text::only(x)) == #[trigger] s.take(n)
                &&& forall|i: int| n <= i < s.len() ==> #[trigger] s[i] == x
                &&& n > 0 ==> s[n - 1] != x
            },
{
    let a = text::trim_start(s, text::only(x));
    let b = text::trim_end(s, text::only(x));
    text::lemma_trim_start(s, text::only(x));
    text::lemma_trim_end(s, text::only(x));
    let n = s.len() - a.len();
    assert(a == s.skip(n));
    assert forall|i: int| 0 <= i < n implies #[trigger] s[i] == x by {
        assert(text::only(x)(s[i]));
    }
    if n < s.len() {
        assert(a.first() == s[n]);
    }
    let m = b.len() as int;
    assert(b == s.take(m));
    assert forall|i: int| m <= i < s.len() implies #[trigger] s[i] == x by {
        assert(text::only(x)(s[i]));
    }
    if m > 0 {
        assert(b.last() == s[m - 1]);
    }
}

/// From `from` to `to` there is no `x`, before it the text or an `x` ends, and an `x`
/// follows.
pub open spec fn is_ended_piece(s: Seq<char>, x: char, from: int, to: int) -> bool {
    &&& 0 <= from <= to < s.len()
    &&& s[to] == x
    &&& from == 0 || s[from - 1] == x
    &&& forall|i: int| from <= i < to ==> #[trigger] s[i] != x
}

/// From `from` to the end there is no `x`, and before it the text or an `x` ends.
pub open spec fn is_last_piece(s: Seq<char>, x: char, from: int) -> bool {
    &&& 0 <= from <= s.len()
    &&& from == 0 || s[from - 1] == x
    &&& forall|i: int| from <= i < s.len() ==> #[trigger] s[i] != x
}

/// The pieces but the last are the parts of the text that a separator ends, and no others.
pub open spec fn ended_pieces_are(s: Seq<char>, x: char, pieces: Seq<Seq<char>>) -> bool {
    &&& forall|j: int| 0 <= j < pieces.len() ==> is_some_ended_piece(s, x, #[trigger] pieces[j])
    &&& forall|from: int, to: int| #[trigger]
        is_ended_piece(s, x, from, to) ==> pieces.contains(s.subrange(from, to))
}

pub open spec fn is_some_ended_piece(s: Seq<char>, x: char, piece: Seq<char>) -> bool {
    exists|from: int, to: int| #[trigger]
        is_ended_piece(s, x, from, to) && piece == s.subrange(from, to)
}

proof fn lemma_ended_piece_longer(s: Seq<char>, x: char, from: int, to: int)
    requires
        s.len() > 0,
        to < s.len() - 1,
    ensures
        is_ended_piece(s.drop_last(), x, from, to) == is_ended_piece(s, x, from, to),
        0 <= from <= to ==> s.drop_last().subrange(from, to) == s.subrange(from, to),
{
    let front = s.drop_last();
    if is_ended_piece(front, x, from, to) {
        assert forall|i: int| from <= i < to implies #[trigger] s[i] != x by {
            assert(front[i] != x);
        }
    }
    if is_ended_piece(s, x, from, to) {
        assert forall|i: int| from <= i < to implies #[trigger] front[i] != x by {
            assert(s[i] != x);
        }
    }
    if 0 <= from <= to {
        assert(front.subrange(from, to) =~= s.subrange(from, to));
    }
}

proof fn lemma_last_piece_longer(s: Seq<char>, x: char, from: int)
    requires
        s.len() > 0,
        from < s.len(),
    ensures
        is_last_piece(s.drop_last(), x, from) && s.last() != x ==> is_last_piece(s, x, from),
        is_last_piece(s, x, from) ==> is_last_piece(s.drop_last(), x, from) && s.last() != x,
        is_last_piece(s.drop_last(), x, from) && s.last() == x ==> is_ended_piece(
            s,
            x,
            from,
            s.len() - 1,
        ),
        is_ended_piece(s, x, from, s.len() - 1) ==> is_last_piece(s.drop_last(), x, from)
            && s.last() == x,
{
    let front = s.drop_last();
    if is_last_piece(front, x, from) {
        assert forall|i: int| from <= i < s.len() - 1 implies #[trigger] s[i] != x by {
            assert(front[i] != x);
        }
    }
    if is_last_piece(s, x, from) || is_ended_piece(s, x, from, s.len() - 1) {
        assert forall|i: int| from <= i < front.len() implies #[trigger] front[i] != x by {
            assert(s[i] != x);
        }
    }
}

/// The pieces of a text are what stands between its separators, each of them, and the last
/// one is what follows the last separator.
pub proof fn pieces_stand_between_separators(s: Seq<char>, x: char)
    ensures
        text::split(s, text::only(x)).len() >= 1,
        ended_pieces_are(s, x, text::split(s, text::only(x)).drop_last()),
        exists|from: int| #[trigger]
            is_last_piece(s, x, from) && text::split(s, text::only(x)).last() == s.subrange(
                from,
                s.len() as int,
            ),
        forall|from: int| #[trigger]
            is_last_piece(s, x, from) ==> text::split(s, text::only(x)).last() == s.subrange(
                from,
                s.len() as int,
            ),
    decreases s.len(),
{
    let p = text::only(x);
    let all = text::split(s, p);
    if s.len() == 0 {
        assert(is_last_piece(s, x, 0));
        assert(s.subrange(0, 0) =~= Seq::<char>::empty());
        assert(all.drop_last() =~= Seq::<Seq<char>>::empty());
    } else {
        let front = s.drop_last();
        let rest = text::split(front, p);
        pieces_stand_between_separators(front, x);
        let start = choose|from: int| #[trigger]
            is_last_piece(front, x, from) && rest.last() == front.subrange(from, front.len() as int);
        let n = s.len() - 1;
        lemma_last_piece_longer(s, x, start);
        if s.last() == x {
            assert(all.drop_last() =~= rest);
            assert(s.subrange(start, n) =~= front.subrange(start, n));
            assert forall|j: int| 0 <= j < rest.len() implies is_some_ended_piece(
                s,
                x,
                #[trigger] rest[j],
            ) by {
                if j < rest.len() - 1 {
                    assert(rest.drop_last()[j] == rest[j]);
                    let (from, to) = choose|from: int, to: int| #[trigger]
                        is_ended_piece(front, x, from, to) && rest[j] == front.subrange(from, to);
                    lemma_ended_piece_longer(s, x, from, to);
                    assert(is_ended_piece(s, x, from, to));
                } else {
                    assert(is_ended_piece(s, x, start, n));
                }
            }
            assert forall|from: int, to: int| #[trigger] is_ended_piece(
                s,
                x,
                from,
                to,
            ) implies rest.contains(s.subrange(from, to)) by {
                if to < n {
                    lemma_ended_piece_longer(s, x, from, to);
                    let j = choose|j: int|
                        0 <= j < rest.drop_last().len() && rest.drop_last()[j] == s.subrange(from, to);
                    assert(rest[j] == s.subrange(from, to));
                } else {
                    lemma_last_piece_longer(s, x, from);
                    assert(s.subrange(from, n) =~= front.subrange(from, n));
                    assert(rest[rest.len() - 1] == s.subrange(from, to));
                }
            }
            assert(is_last_piece(s, x, n + 1));
            assert(s.subrange(n + 1, n + 1) =~= Seq::<char>::empty());
            assert forall|from: int| #[trigger] is_last_piece(s, x, from) implies all.last()
                == s.subrange(from, s.len() as int) by {
                if from <= n {
                    assert(s[n] != x);
                }
            }
        } else {
            let longer = rest.last().push(s.last());
            assert(all.drop_last() =~= rest.drop_last());
            assert forall|j: int| 0 <= j < rest.drop_last().len() implies is_some_ended_piece(
                s,
                x,
                #[trigger] rest.drop_last()[j],
            ) by {
                let (from, to) = choose|from: int, to: int| #[trigger]
                    is_ended_piece(front, x, from, to) && rest.drop_last()[j] == front.subrange(
                        from,
                        to,
                    );
                lemma_ended_piece_longer(s, x, from, to);
                assert(is_ended_piece(s, x, from, to));
            }
            assert forall|from: int, to: int| #[trigger] is_ended_piece(
                s,
                x,
                from,
                to,
            ) implies rest.drop_last().contains(s.subrange(from, to)) by {
                assert(to < n);
                lemma_ended_piece_longer(s, x, from, to);
            }
            assert(is_last_piece(s, x, start));
            assert(s.subrange(start, n + 1) =~= longer);
            assert forall|from: int| #[trigger] is_last_piece(s, x, from) implies all.last()
                == s.subrange(from, s.len() as int) by {
                if from == s.len() {
                    assert(s[n] == x);
                }
                lemma_last_piece_longer(s, x, from);
                assert(s.subrange(from, n + 1) =~= front.subrange(from, n).push(s.last()));
            }
        }
    }
}

proof fn lemma_split_at(a: Seq<char>, x: char, b: Seq<char>)
    requires
        !a.contains(x),
    ensures
        text::split(a, text::only(x)) == seq![a],
        text::split(a.push(x) + b, text::only(x)) == seq![a] + text::split(b, text::only(x)),
    decreases a.len() + b.len(),
{
    let p = text::only(x);
    if b.len() > 0 {
        let front = b.drop_last();
        lemma_split_at(a, x, front);
        let s = a.push(x) + b;
        assert(s.drop_last() =~= a.push(x) + front);
        let rest = text::split(front, p);
        pieces_stand_between_separators(front, x);
        if b.last() == x {
            assert(text::split(s, p) =~= seq![a] + text::split(b, p));
        } else {
            let longer = rest.last().push(b.last());
            assert((seq![a] + rest).update(rest.len() as int, longer) =~= seq![a] + rest.update(
                rest.len() - 1,
                longer,
            ));
            assert(text::split(s, p) =~= seq![a] + text::split(b, p));
        }
    } else {
        if a.len() > 0 {
            let front = a.drop_last();
            assert(!front.contains(x)) by {
                if front.contains(x) {
                    let i = choose|i: int| 0 <= i < front.len() && front[i] == x;
                    assert(a[i] == x);
                }
            }
            lemma_split_at(front, x, b);
            assert(a[a.len() - 1] != x);
            assert(front.push(a.last()) =~= a);
            assert(text::split(a, p) =~= seq![a]);
        } else {
            assert(a =~= Seq::<char>::empty());
            assert(text::split(a, p) == seq![a]);
        }
        assert(text::split(a, p) == seq![a]);
        let s = a.push(x) + b;
        assert(s =~= a.push(x));
        assert(s.drop_last() =~= a);
        assert(p(s.last()));
        assert(text::split(b, p) == seq![Seq::<char>::empty()]);
        assert(text::split(s, p) == text::split(s.drop_last(), p).push(Seq::<char>::empty()));
        assert(text::split(s, p) =~= seq![a] + text::split(b, p));
    }
}

/// A line goes up to a line feed, which it does not hold, nor a carriage return right
/// before it; the rest of the text has its own lines. Text without a line feed is one line
/// as it stands, and no line where it is empty.
pub proof fn lines_end_at_line_feeds(a: Seq<char>, b: Seq<char>)
    requires
        !a.contains('\n'),
    ensures
        text::lines(a.push('\n') + b) == seq![
            if a.len() > 0 && a.last() == '\r' {
                a.drop_last()
            } else {
                a
            },
        ] + text::lines(b),
        text::lines(a) == if a.len() == 0 {
            Seq::<Seq<char>>::empty()
        } else {
            seq![a]
        },
{
    let p = text::only('\n');
    lemma_split_at(a, '\n', b);
    pieces_stand_between_separators(b, '\n');
    let rest = text::split(b, p);
    let all = text::split(a.push('\n') + b, p);
    assert(all.last() == rest.last());
    assert(text::lines(a.push('\n') + b) =~= seq![text::without_cr(a)] + text::lines(b));
    assert(text::lines(a) =~= if a.len() == 0 {
        Seq::<Seq<char>>::empty()
    } else {
        seq![a]
    });
}

/// The first field of a line goes up to its first tab, blank or semicolon.
pub proof fn fields_end_at_tabs_blanks_and_semicolons(s: Seq<char>)
    ensures
        ({
            let field = text::until(s, text::field_ends());
            &&& field.len() <= s.len()
            &&& field == s.take(field.len() as int)
            &&& forall|i: int|
                0 <= i < field.len() ==> #[trigger] s[i] != '\t' && s[i] != ' ' && s[i] != ';'
            &&& field.len() < s.len() ==> s[field.len() as int] == '\t' || s[field.len() as int]
                == ' ' || s[field.len() as int] == ';'
        }),
    decreases s.len(),
{
    let ends = text::field_ends();
    let field = text::until(s, ends);
    if s.len() > 0 && !ends(s.first()) {
        let rest = s.drop_first();
        fields_end_at_tabs_blanks_and_semicolons(rest);
        let short = text::until(rest, ends);
        assert(field == seq![s.first()] + short);
        assert(field =~= s.take(field.len() as int));
        assert forall|i: int| 0 <= i < field.len() implies #[trigger] s[i] != '\t' && s[i] != ' '
            && s[i] != ';' by {
            if i > 0 {
                assert(rest[i - 1] == s[i]);
            }
        }
    } else {
        assert(field =~= s.take(0));
    }
}

/// The number that a row of digits stands for.
pub open spec fn number(s: Seq<char>) -> int
    decreases s.len(),
{
    if s.len() == 0 {
        0
    } else {
        10 * number(s.drop_last()) + (s.last() as int - 48)
    }
}

/// A numeral consists of digits, the first of them not zero unless it is alone, and stands
/// for its number.
pub proof fn numerals_stand_for_their_number(n: nat)
    ensures
        text::decimal(n).len() >= 1,
        forall|i: int|
            0 <= i < text::decimal(n).len() ==> 48 <= (#[trigger] text::decimal(n)[i]) as int <= 57,
        text::decimal(n).len() > 1 ==> text::decimal(n)[0] as int != 48,
        number(text::decimal(n)) == n,
    decreases n,
{
    let d = text::decimal(n);
    if n < 10 {
        assert(d.drop_last() =~= Seq::<char>::empty());
        assert(number(d.drop_last()) == 0);
        assert(d.last() == text::digit(n));
    } else {
        let front = text::decimal(n / 10);
        numerals_stand_for_their_number(n / 10);
        assert(d.drop_last() =~= front);
        assert(d.last() == text::digit(n % 10));
        assert forall|i: int| 0 <= i < d.len() implies 48 <= (#[trigger] d[i]) as int <= 57 by {
            if i < front.len() {
                assert(d[i] == front[i]);
            }
        }
        if front.len() == 1 {
            assert(front[0] as int != 48) by {
                assert(number(front.drop_last()) == 0) by {
                    assert(front.drop_last() =~= Seq::<char>::empty());
                }
            }
        }
    }
}

/// A text ends with another exactly where something can be put before that one to get it.
pub proof fn endings_can_be_completed(s: Seq<char>, suffix: Seq<char>)
    ensures
        text::has_suffix(s, suffix) <==> exists|head: Seq<char>| s == #[trigger] (head + suffix),
{
    if text::has_suffix(s, suffix) {
        let head = s.take(s.len() - suffix.len());
        assert(s =~= head + suffix);
    }
    if exists|head: Seq<char>| s == #[trigger] (head + suffix) {
        let head = choose|head: Seq<char>| s == #[trigger] (head + suffix);
        assert(s.skip(s.len() - suffix.len()) =~= suffix);
    }
}

} // verus!
