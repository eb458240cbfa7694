//! Text as sequences of characters: ASCII case folding, trimming, splitting,
//! comparison and decimal numerals.

use vstd::prelude::*;

verus! {

broadcast use vstd::string::group_string_axioms;

// ---------------------------------------------------------------------------
// Models
// ---------------------------------------------------------------------------

/// ASCII lower case of one character; every other character stays.
pub open spec fn lower_char(c: char) -> char {
    if 'A' <= c && c <= 'Z' {
        ((c as u32) + 32) as char
    } else {
        c
    }
}

/// ASCII lower case of a text.
pub open spec fn lower(s: Seq<char>) -> Seq<char> {
    Seq::new(s.len(), |i: int| lower_char(s[i]))
}

/// The characters with the Unicode property `White_Space`.
pub open spec fn is_space(c: char) -> bool {
    let n = c as u32;
    ||| 0x09 <= n <= 0x0d
    ||| n == 0x20
    ||| n == 0x85
    ||| n == 0xa0
    ||| n == 0x1680
    ||| 0x2000 <= n <= 0x200a
    ||| n == 0x2028
    ||| n == 0x2029
    ||| n == 0x202f
    ||| n == 0x205f
    ||| n == 0x3000
}

/// The class of characters that holds `x` alone.
pub open spec fn only(x: char) -> spec_fn(char) -> bool {
    |c: char| c == x
}

/// The class of white space characters.
pub open spec fn spaces() -> spec_fn(char) -> bool {
    |c: char| is_space(c)
}

/// The class of characters that end a field: tab, blank and semicolon.
pub open spec fn field_ends() -> spec_fn(char) -> bool {
    |c: char| c == '\t' || c == ' ' || c == ';'
}

/// `s` without its longest run of leading characters of the class.
pub open spec fn trim_start(s: Seq<char>, class: spec_fn(char) -> bool) -> Seq<char>
    decreases s.len(),
{
    if s.len() > 0 && class(s.first()) {
        trim_start(s.drop_first(), class)
    } else {
        s
    }
}

/// `s` without its longest run of trailing characters of the class.
pub open spec fn trim_end(s: Seq<char>, class: spec_fn(char) -> bool) -> Seq<char>
    decreases s.len(),
{
    if s.len() > 0 && class(s.last()) {
        trim_end(s.drop_last(), class)
    } else {
        s
    }
}

/// What is left of a text is its end, and does not begin with a character of the class.
pub proof fn lemma_trim_start(s: Seq<char>, class: spec_fn(char) -> bool)
    ensures
        trim_start(s, class).len() <= s.len(),
        trim_start(s, class) == s.skip(s.len() - trim_start(s, class).len()),
        forall|i: int| 0 <= i < s.len() - trim_start(s, class).len() ==> class(#[trigger] s[i]),
        trim_start(s, class).len() > 0 ==> !class(trim_start(s, class).first()),
    decreases s.len(),
{
    if s.len() > 0 && class(s.first()) {
        lemma_trim_start(s.drop_first(), class);
        let n = trim_start(s, class).len();
        assert(s.skip(s.len() - n) =~= s.drop_first().skip(s.len() - 1 - n));
        assert forall|i: int| 0 <= i < s.len() - n implies class(#[trigger] s[i]) by {
            if i > 0 {
                assert(s.drop_first()[i - 1] == s[i]);
            }
        }
    } else {
        assert(s.skip(0) =~= s);
    }
}

/// What is left of a text is its beginning, and does not end in a character of the class.
pub proof fn lemma_trim_end(s: Seq<char>, class: spec_fn(char) -> bool)
    ensures
        trim_end(s, class).len() <= s.len(),
        trim_end(s, class) == s.take(trim_end(s, class).len() as int),
        forall|i: int| trim_end(s, class).len() <= i < s.len() ==> class(#[trigger] s[i]),
        trim_end(s, class).len() > 0 ==> !class(trim_end(s, class).last()),
    decreases s.len(),
{
    if s.len() > 0 && class(s.last()) {
        lemma_trim_end(s.drop_last(), class);
        let n = trim_end(s, class).len() as int;
        assert(s.take(n) =~= s.drop_last().take(n));
        assert forall|i: int| n <= i < s.len() implies class(#[trigger] s[i]) by {
            if i < s.len() - 1 {
                assert(s.drop_last()[i] == s[i]);
            }
        }
    } else {
        assert(s.take(s.len() as int) =~= s);
    }
}

/// `s` without leading and trailing white space.
pub open spec fn trimmed(s: Seq<char>) -> Seq<char> {
    trim_end(trim_start(s, spaces()), spaces())
}

/// The pieces of `s` between the characters of the class; `n` such characters
/// make `n + 1` pieces.
pub open spec fn split(s: Seq<char>, class: spec_fn(char) -> bool) -> Seq<Seq<char>>
    decreases s.len(),
{
    if s.len() == 0 {
        seq![Seq::<char>::empty()]
    } else {
        let rest = split(s.drop_last(), class);
        if class(s.last()) {
            rest.push(Seq::<char>::empty())
        } else {
            rest.update(rest.len() - 1, rest.last().push(s.last()))
        }
    }
}

/// `s` without one final carriage return.
pub open spec fn without_cr(s: Seq<char>) -> Seq<char> {
    if s.len() > 0 && s.last() == '\r' {
        s.drop_last()
    } else {
        s
    }
}

/// The lines of `s`: each ends with a line feed, or with a carriage return and
/// a line feed; the last one may end with the text instead.
pub open spec fn lines(s: Seq<char>) -> Seq<Seq<char>> {
    let pieces = split(s, only('\n'));
    let ended = Seq::new((pieces.len() - 1) as nat, |i: int| without_cr(pieces[i]));
    if pieces.last().len() == 0 {
        ended
    } else {
        ended.push(pieces.last())
    }
}

/// `s` up to its first character of the class.
pub open spec fn until(s: Seq<char>, class: spec_fn(char) -> bool) -> Seq<char>
    decreases s.len(),
{
    if s.len() == 0 || class(s.first()) {
        Seq::empty()
    } else {
        seq![s.first()] + until(s.drop_first(), class)
    }
}

/// `s` ends with `suffix`.
pub open spec fn has_suffix(s: Seq<char>, suffix: Seq<char>) -> bool {
    &&& suffix.len() <= s.len()
    &&& s.skip(s.len() - suffix.len()) =~= suffix
}

/// The digit character of `d`.
pub open spec fn digit(d: nat) -> char {
    (48 + d) as char
}

/// The decimal numeral of `n`.
pub open spec fn decimal(n: nat) -> Seq<char>
    decreases n,
{
    if n < 10 {
        seq![digit(n)]
    } else {
        decimal(n / 10).push(digit(n % 10))
    }
}

/// The texts that a vector of strings holds.
pub open spec fn texts(v: Seq<String>) -> Seq<Seq<char>> {
    Seq::new(v.len(), |i: int| v[i]@)
}

/// The text that an optional string holds.
pub open spec fn opt_text(s: Option<String>) -> Option<Seq<char>> {
    match s {
        Some(t) => Some(t@),
        None => None,
    }
}

/// The text that an optional string slice holds.
pub open spec fn opt_str(s: Option<&str>) -> Option<Seq<char>> {
    match s {
        Some(t) => Some(t@),
        None => None,
    }
}

// ---------------------------------------------------------------------------
// Operations
// ---------------------------------------------------------------------------

/// `String::push` of the standard library: the character is appended at the end.
pub assume_specification[ String::push ](s: &mut String, ch: char)
    ensures
        final(s)@ == old(s)@.push(ch),
;

/// The characters of `s`, in order.
pub fn chars_of(s: &str) -> (chars: Vec<char>)
    ensures
        chars@ == s@,
{
    let mut out: Vec<char> = Vec::new();
    for c in it: s.chars()
        invariant
            it.seq() == s@,
            out@ == s@.take(it.index()),
    {
        out.push(c);
    }
    out
}

pub fn to_lower_char(c: char) -> (r: char)
    ensures
        r == lower_char(c),
{
    if 'A' <= c && c <= 'Z' {
        ((c as u8) + 32) as char
    } else {
        c
    }
}

/// ASCII lower case of `s`.
pub fn to_lower(s: &str) -> (r: String)
    ensures
        r@ == lower(s@),
{
    let mut out = String::new();
    for c in it: s.chars()
        invariant
            it.seq() == s@,
            out@ == lower(s@.take(it.index())),
    {
        out.push(to_lower_char(c));
        proof {
            assert(lower(s@.take(it.index())).push(lower_char(c)) =~= lower(s@.take(it.index() + 1)));
        }
    }
    out
}

/// Whether the two texts are equal.
pub fn same_text(a: &str, b: &str) -> (r: bool)
    ensures
        r == (a@ == b@),
{
    let x = chars_of(a);
    let y = chars_of(b);
    if x.len() != y.len() {
        return false;
    }
    let mut i: usize = 0;
    while i < x.len()
        invariant
            x@ == a@,
            y@ == b@,
            x.len() == y.len(),
            i <= x.len(),
            forall|j: int| 0 <= j < i ==> x@[j] == y@[j],
        decreases x.len() - i,
    {
        if x[i] != y[i] {
            return false;
        }
        i += 1;
    }
    assert(a@ =~= b@);
    true
}

/// Whether `s` ends with `suffix`.
pub fn ends_with(s: &str, suffix: &str) -> (r: bool)
    ensures
        r == has_suffix(s@, suffix@),
{
    let x = chars_of(s);
    let y = chars_of(suffix);
    if y.len() > x.len() {
        return false;
    }
    let start: usize = x.len() - y.len();
    let mut i: usize = 0;
    while i < y.len()
        invariant
            x@ == s@,
            y@ == suffix@,
            start == x.len() - y.len(),
            i <= y.len(),
            forall|j: int| 0 <= j < i ==> x@[start + j] == y@[j],
        decreases y.len() - i,
    {
        if x[start + i] != y[i] {
            assert(s@.skip(start as int)[i as int] != suffix@[i as int]);
            return false;
        }
        i += 1;
    }
    assert(s@.skip(start as int) =~= suffix@);
    true
}

/// Whether `x` occurs in `s`.
pub fn contains_char(s: &str, x: char) -> (r: bool)
    ensures
        r == s@.contains(x),
{
    for c in it: s.chars()
        invariant
            it.seq() == s@,
            forall|j: int| 0 <= j < it.index() ==> s@[j] != x,
    {
        if c == x {
            assert(s@[it.index()] == x);
            return true;
        }
    }
    false
}

/// The characters `from..to` of `chars` as a string.
pub fn string_between(chars: &Vec<char>, from: usize, to: usize) -> (r: String)
    requires
        from <= to <= chars.len(),
    ensures
        r@ == chars@.subrange(from as int, to as int),
{
    let mut out = String::new();
    let mut i: usize = from;
    while i < to
        invariant
            from <= i <= to <= chars.len(),
            out@ == chars@.subrange(from as int, i as int),
        decreases to - i,
    {
        out.push(chars[i]);
        i += 1;
    }
    out
}

pub fn is_space_char(c: char) -> (r: bool)
    ensures
        r == is_space(c),
{
    let n: u32 = c as u32;
    (0x09 <= n && n <= 0x0d) || n == 0x20 || n == 0x85 || n == 0xa0 || n == 0x1680 || (0x2000 <= n
        && n <= 0x200a) || n == 0x2028 || n == 0x2029 || n == 0x202f || n == 0x205f || n == 0x3000
}

/// `s` without leading and trailing white space.
pub fn trim(s: &str) -> (r: String)
    ensures
        r@ == trimmed(s@),
{
    let chars = chars_of(s);
    let mut from: usize = 0;
    assert(s@.skip(0) =~= s@);
    while from < chars.len() && is_space_char(chars[from])
        invariant
            chars@ == s@,
            from <= chars.len(),
            trim_start(s@, spaces()) == trim_start(s@.skip(from as int), spaces()),
        decreases chars.len() - from,
    {
        assert(s@.skip(from as int).drop_first() =~= s@.skip(from + 1));
        from += 1;
    }
    assert(trim_start(s@, spaces()) == s@.skip(from as int));
    let mut to: usize = chars.len();
    assert(s@.subrange(from as int, to as int) =~= s@.skip(from as int));
    while to > from && is_space_char(chars[to - 1])
        invariant
            chars@ == s@,
            from <= to <= chars.len(),
            trim_end(s@.skip(from as int), spaces()) == trim_end(
                s@.subrange(from as int, to as int),
                spaces(),
            ),
        decreases to - from,
    {
        assert(s@.subrange(from as int, to as int).drop_last() =~= s@.subrange(
            from as int,
            to - 1,
        ));
        to -= 1;
    }
    string_between(&chars, from, to)
}

/// `s` without its leading characters `x`.
pub fn trim_start_char(s: &str, x: char) -> (r: String)
    ensures
        r@ == trim_start(s@, only(x)),
{
    let chars = chars_of(s);
    let mut from: usize = 0;
    assert(s@.skip(0) =~= s@);
    while from < chars.len() && chars[from] == x
        invariant
            chars@ == s@,
            from <= chars.len(),
            trim_start(s@, only(x)) == trim_start(s@.skip(from as int), only(x)),
        decreases chars.len() - from,
    {
        assert(s@.skip(from as int).drop_first() =~= s@.skip(from + 1));
        from += 1;
    }
    assert(s@.subrange(from as int, s@.len() as int) =~= s@.skip(from as int));
    string_between(&chars, from, chars.len())
}

/// `s` without its trailing characters `x`.
pub fn trim_end_char(s: &str, x: char) -> (r: String)
    ensures
        r@ == trim_end(s@, only(x)),
{
    let chars = chars_of(s);
    let mut to: usize = chars.len();
    assert(s@.take(to as int) =~= s@);
    while to > 0 && chars[to - 1] == x
        invariant
            chars@ == s@,
            to <= chars.len(),
            trim_end(s@, only(x)) == trim_end(s@.take(to as int), only(x)),
        decreases to,
    {
        assert(s@.take(to as int).drop_last() =~= s@.take(to - 1));
        to -= 1;
    }
    assert(s@.subrange(0, to as int) =~= s@.take(to as int));
    string_between(&chars, 0, to)
}

/// The pieces of `s` between the characters `x`.
pub fn split_on(s: &str, x: char) -> (r: Vec<String>)
    ensures
        texts(r@) == split(s@, only(x)),
{
    let mut done: Vec<String> = Vec::new();
    let mut piece = String::new();
    for c in it: s.chars()
        invariant
            it.seq() == s@,
            texts(done@).push(piece@) =~= split(s@.take(it.index()), only(x)),
    {
        let ghost before = texts(done@).push(piece@);
        proof {
            assert(s@.take(it.index() + 1).drop_last() =~= s@.take(it.index()));
            assert(s@.take(it.index() + 1).last() == c);
        }
        if c == x {
            done.push(piece);
            piece = String::new();
            assert(texts(done@) =~= before);
        } else {
            let ghost old_piece = piece@;
            piece.push(c);
            assert(texts(done@).push(piece@) =~= before.update(before.len() - 1, old_piece.push(c)));
        }
    }
    assert(s@.take(s@.len() as int) =~= s@);
    let ghost all = texts(done@).push(piece@);
    done.push(piece);
    assert(texts(done@) =~= all);
    done
}

proof fn lemma_split_nonempty(s: Seq<char>, class: spec_fn(char) -> bool)
    ensures
        split(s, class).len() > 0,
    decreases s.len(),
{
    if s.len() > 0 {
        lemma_split_nonempty(s.drop_last(), class);
    }
}

/// The lines of `s`.
pub fn lines_of(s: &str) -> (r: Vec<String>)
    ensures
        texts(r@) == lines(s@),
{
    let pieces = split_on(s, '\n');
    proof {
        lemma_split_nonempty(s@, only('\n'));
    }
    let ghost model = split(s@, only('\n'));
    assert(pieces@.len() == texts(pieces@).len());
    let last: usize = pieces.len() - 1;
    let mut out: Vec<String> = Vec::new();
    let mut i: usize = 0;
    while i < last
        invariant
            i <= last,
            last + 1 == pieces@.len(),
            texts(pieces@) == model,
            texts(out@) =~= Seq::new(i as nat, |j: int| without_cr(model[j])),
        decreases last - i,
    {
        let chars = chars_of(pieces[i].as_str());
        let n: usize = chars.len();
        assert(model[i as int] == pieces@[i as int]@);
        let end: usize = if n > 0 && chars[n - 1] == '\r' { n - 1 } else { n };
        let line = string_between(&chars, 0, end);
        assert(line@ =~= without_cr(model[i as int]));
        let ghost longer = texts(out@).push(line@);
        out.push(line);
        assert(texts(out@) =~= longer);
        i += 1;
    }
    assert(model[last as int] == pieces@[last as int]@);
    if !pieces[last].as_str().is_empty() {
        out.push(pieces[last].clone());
    }
    assert(texts(out@) =~= lines(s@));
    out
}

/// The field that `s` begins with, up to a tab, a blank or a semicolon.
pub fn leading_field(s: &str) -> (r: String)
    ensures
        r@ == until(s@, field_ends()),
{
    let chars = chars_of(s);
    let mut n: usize = 0;
    assert(s@.skip(0) =~= s@);
    assert(s@.take(0) + until(s@.skip(0), field_ends()) =~= until(s@, field_ends()));
    while n < chars.len() && chars[n] != '\t' && chars[n] != ' ' && chars[n] != ';'
        invariant
            chars@ == s@,
            n <= chars.len(),
            s@.take(n as int) + until(s@.skip(n as int), field_ends()) == until(s@, field_ends()),
        decreases chars.len() - n,
    {
        proof {
            let rest = s@.skip(n as int);
            assert(rest.drop_first() =~= s@.skip(n + 1));
            assert(s@.take(n + 1) =~= s@.take(n as int).push(s@[n as int]));
            assert(s@.take(n + 1) + until(s@.skip(n + 1), field_ends()) =~= s@.take(n as int)
                + until(rest, field_ends()));
        }
        n += 1;
    }
    assert(until(s@.skip(n as int), field_ends()) =~= Seq::<char>::empty());
    assert(s@.subrange(0, n as int) =~= until(s@, field_ends()));
    string_between(&chars, 0, n)
}

/// What `<str as Debug>::fmt` writes for a text: the text in quotation marks, with
/// escapes where it needs them.
pub uninterp spec fn debug_text(s: Seq<char>) -> Seq<char>;

/// `<str as Debug>::fmt`, by way of `format!`. What it writes depends on the text alone;
/// which characters it escapes is not spelled out here.
#[verifier::external_body]
pub(crate) fn quoted(s: &str) -> (shown: String)
    ensures
        shown@ == debug_text(s@),
{
    format!("{s:?}")
}

/// `a` followed by `b`.
pub fn joined(a: &str, b: &str) -> (r: String)
    ensures
        r@ == a@ + b@,
{
    let mut out = a.to_owned();
    out.append(b);
    out
}

/// The decimal numeral of `n`.
pub fn to_decimal(n: u64) -> (r: String)
    ensures
        r@ == decimal(n as nat),
    decreases n,
{
    let d: u8 = (n % 10) as u8;
    let c: char = (48 + d) as char;
    let mut out = if n < 10 {
        String::new()
    } else {
        to_decimal(n / 10)
    };
    out.push(c);
    assert(n < 10 ==> out@ =~= decimal(n as nat));
    out
}

} // verus!
