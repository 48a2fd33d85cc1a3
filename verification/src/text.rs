//! Character-level text helpers: trimming, decimal numbers, line and field
//! splitting, over `Seq<char>` models of `str` and `String`.

use vstd::prelude::*;

verus! {

/// The Unicode `White_Space` property, the set that `str::trim` strips.
pub open spec fn is_white_space(c: char) -> bool {
    ||| c == ' '
    ||| ('\t' <= c && c <= '\r')
    ||| c == '\u{85}'
    ||| c == '\u{A0}'
    ||| c == '\u{1680}'
    ||| ('\u{2000}' <= c && c <= '\u{200A}')
    ||| c == '\u{2028}'
    ||| c == '\u{2029}'
    ||| c == '\u{202F}'
    ||| c == '\u{205F}'
    ||| c == '\u{3000}'
}

/// `s` without its leading white space.
pub open spec fn trim_start_spec(s: Seq<char>) -> Seq<char>
    decreases s.len(),
{
    if s.len() > 0 && is_white_space(s[0]) {
        trim_start_spec(s.drop_first())
    } else {
        s
    }
}

/// `s` without its trailing white space.
pub open spec fn trim_end_spec(s: Seq<char>) -> Seq<char>
    decreases s.len(),
{
    if s.len() > 0 && is_white_space(s.last()) {
        trim_end_spec(s.drop_last())
    } else {
        s
    }
}

/// What `str::trim` gives back: `s` without leading and trailing white space.
pub open spec fn trim_spec(s: Seq<char>) -> Seq<char> {
    trim_end_spec(trim_start_spec(s))
}

/// Tests one character for white space.
pub fn char_is_white_space(c: char) -> (r: bool)
    ensures
        r == is_white_space(c),
{
    c == ' ' || ('\t' <= c && c <= '\r') || c == '\u{85}' || c == '\u{A0}' || c == '\u{1680}'
        || ('\u{2000}' <= c && c <= '\u{200A}') || c == '\u{2028}' || c == '\u{2029}'
        || c == '\u{202F}' || c == '\u{205F}' || c == '\u{3000}'
}


proof fn lemma_trim_start_step(s: Seq<char>, i: int)
    requires
        0 <= i < s.len(),
        is_white_space(s[i]),
    ensures
        trim_start_spec(s.subrange(i, s.len() as int)) == trim_start_spec(
            s.subrange(i + 1, s.len() as int),
        ),
{
    assert(s.subrange(i, s.len() as int).drop_first() =~= s.subrange(i + 1, s.len() as int));
}

proof fn lemma_trim_end_step(s: Seq<char>, j: int)
    requires
        0 < j <= s.len(),
        is_white_space(s[j - 1]),
    ensures
        trim_end_spec(s.subrange(0, j)) == trim_end_spec(s.subrange(0, j - 1)),
{
    assert(s.subrange(0, j).drop_last() =~= s.subrange(0, j - 1));
}

/// The index of the first character of `s` that is not white space, or the
/// length of `s` where there is none.
fn leading_white_space(s: &str) -> (i: usize)
    ensures
        i <= s@.len(),
        trim_start_spec(s@) == s@.subrange(i as int, s@.len() as int),
{
    let n = s.unicode_len();
    let mut i: usize = 0;
    assert(s@.subrange(0, s@.len() as int) =~= s@);
    while i < n
        invariant
            n == s@.len(),
            i <= n,
            trim_start_spec(s@) == trim_start_spec(s@.subrange(i as int, n as int)),
        decreases n - i,
    {
        let c = s.get_char(i);
        if !char_is_white_space(c) {
            assert(s@.subrange(i as int, n as int)[0] == c);
            return i;
        }
        proof {
            lemma_trim_start_step(s@, i as int);
        }
        i = i + 1;
    }
    assert(s@.subrange(n as int, n as int).len() == 0);
    i
}

/// Gives back `s` without leading and trailing white space, as `str::trim` does.
pub fn trim(s: &str) -> (r: &str)
    ensures
        r@ == trim_spec(s@),
{
    let start = leading_white_space(s);
    let n = s.unicode_len();
    let rest = s.substring_char(start, n);
    let mut j: usize = n - start;
    assert(rest@.subrange(0, j as int) =~= rest@);
    while j > 0
        invariant
            j <= rest@.len(),
            rest@ == trim_start_spec(s@),
            trim_end_spec(rest@) == trim_end_spec(rest@.subrange(0, j as int)),
        decreases j,
    {
        let c = rest.get_char(j - 1);
        if !char_is_white_space(c) {
            let r = rest.substring_char(0, j);
            assert(r@.last() == c);
            return r;
        }
        proof {
            lemma_trim_end_step(rest@, j as int);
        }
        j = j - 1;
    }
    let r = rest.substring_char(0, 0);
    r
}

/// `c` is one of the ASCII digits `0` to `9`.
pub open spec fn is_digit(c: char) -> bool {
    '0' <= c && c <= '9'
}

/// The value of an ASCII digit.
pub open spec fn digit_value(c: char) -> nat {
    (c as int - '0' as int) as nat
}

/// The character of a digit value below ten.
pub open spec fn digit_char(d: nat) -> char {
    (d + '0' as int) as char
}

/// Every character of `s` is an ASCII digit.
pub open spec fn all_digits(s: Seq<char>) -> bool {
    forall|i: int| 0 <= i < s.len() ==> is_digit(#[trigger] s[i])
}

/// The number that the digits `s` write in base ten.
pub open spec fn decimal_value(s: Seq<char>) -> nat
    decreases s.len(),
{
    if s.len() == 0 {
        0
    } else {
        decimal_value(s.drop_last()) * 10 + digit_value(s.last())
    }
}

/// The digits of an unsigned number as `u64::from_str` reads them: an
/// optional leading `+`, then the digits.
pub open spec fn unsigned_digits(s: Seq<char>) -> Seq<char> {
    if s.len() > 0 && s[0] == '+' {
        s.drop_first()
    } else {
        s
    }
}

/// What `str::parse::<u64>` gives back on `s`, as `Option`: a value when `s`
/// is an optional `+` followed by at least one digit and the digits' value
/// fits in `u64`.
pub open spec fn parse_u64_spec(s: Seq<char>) -> Option<u64> {
    let d = unsigned_digits(s);
    if d.len() > 0 && all_digits(d) && decimal_value(d) <= u64::MAX {
        Some(decimal_value(d) as u64)
    } else {
        None
    }
}

/// The shortest decimal writing of `n`, as `u64::to_string` gives it.
pub open spec fn decimal_string(n: nat) -> Seq<char>
    decreases n,
{
    if n < 10 {
        seq![digit_char(n)]
    } else {
        decimal_string(n / 10).push(digit_char(n % 10))
    }
}

proof fn lemma_decimal_value_prefix_le(s: Seq<char>, i: int)
    requires
        0 <= i <= s.len(),
    ensures
        decimal_value(s.subrange(0, i)) <= decimal_value(s),
    decreases s.len() - i,
{
    if i < s.len() {
        let t = s.subrange(0, i + 1);
        assert(t.drop_last() =~= s.subrange(0, i));
        lemma_decimal_value_prefix_le(s, i + 1);
        assert(s.subrange(0, s.len() as int) =~= s);
    } else {
        assert(s.subrange(0, i) =~= s);
    }
}

/// Reads an unsigned decimal number as `str::parse::<u64>` does.
pub fn parse_u64(s: &str) -> (r: Option<u64>)
    ensures
        r == parse_u64_spec(s@),
{
    let n = s.unicode_len();
    let mut i: usize = 0;
    if n > 0 && s.get_char(0) == '+' {
        i = 1;
    }
    let ghost d = unsigned_digits(s@);
    assert(d =~= s@.subrange(i as int, n as int));
    if i == n {
        return None;
    }
    let start = i;
    let mut acc: u64 = 0;
    while i < n
        invariant
            start <= i <= n,
            n == s@.len(),
            d =~= s@.subrange(start as int, n as int),
            d == unsigned_digits(s@),
            start < n,
            all_digits(d.subrange(0, i - start)),
            acc as nat == decimal_value(d.subrange(0, i - start)),
        decreases n - i,
    {
        let c = s.get_char(i);
        let ghost k = i - start;
        assert(d[k as int] == c);
        if !('0' <= c && c <= '9') {
            assert(!all_digits(d));
            return None;
        }
        let dv: u64 = (c as u32 - '0' as u32) as u64;
        let ghost next = d.subrange(0, k + 1);
        assert(next.drop_last() =~= d.subrange(0, k as int));
        assert(decimal_value(next) == decimal_value(d.subrange(0, k as int)) * 10 + dv);
        proof {
            lemma_decimal_value_prefix_le(d, k + 1);
        }
        if acc > (u64::MAX - dv) / 10 {
            assert(acc * 10 + dv > u64::MAX) by (nonlinear_arith)
                requires
                    acc > (u64::MAX - dv) / 10,
                    dv <= 9,
            ;
            return None;
        }
        assert(acc * 10 + dv <= u64::MAX) by (nonlinear_arith)
            requires
                acc <= (u64::MAX - dv) / 10,
                dv <= 9,
        ;
        acc = acc * 10 + dv;
        i = i + 1;
        assert(all_digits(d.subrange(0, i - start)));
    }
    assert(d.subrange(0, n - start) =~= d);
    Some(acc)
}


/// `String::push` of std: appends the character `c` at the end of `s`.
#[verifier::external_body]
pub(crate) fn push_char(s: &mut String, c: char)
    ensures
        final(s)@ == old(s)@.push(c),
{
    s.push(c)
}

fn digit_to_char(d: u64) -> (c: char)
    requires
        d < 10,
    ensures
        c == digit_char(d as nat),
        is_digit(c),
        digit_value(c) == d,
{
    match d {
        0 => '0',
        1 => '1',
        2 => '2',
        3 => '3',
        4 => '4',
        5 => '5',
        6 => '6',
        7 => '7',
        8 => '8',
        _ => '9',
    }
}

/// Writes `n` in base ten, as `u64::to_string` does.
pub fn u64_to_decimal(n: u64) -> (r: String)
    ensures
        r@ == decimal_string(n as nat),
    decreases n,
{
    if n < 10 {
        let mut s = String::new();
        push_char(&mut s, digit_to_char(n));
        assert(s@ =~= seq![digit_char(n as nat)]);
        s
    } else {
        let mut s = u64_to_decimal(n / 10);
        push_char(&mut s, digit_to_char(n % 10));
        s
    }
}

/// The decimal writing of a number is a non-empty run of digits.
pub proof fn lemma_decimal_string_digits(n: nat)
    ensures
        decimal_string(n).len() > 0,
        all_digits(decimal_string(n)),
        decimal_string(n)[0] != '+',
    decreases n,
{
    if n >= 10 {
        lemma_decimal_string_digits(n / 10);
        let s = decimal_string(n / 10);
        assert(decimal_string(n) == s.push(digit_char(n % 10)));
        assert forall|i: int| 0 <= i < decimal_string(n).len() implies is_digit(
            #[trigger] decimal_string(n)[i],
        ) by {
            if i < s.len() {
                assert(decimal_string(n)[i] == s[i]);
            }
        }
    }
}

proof fn lemma_digit_char_value(d: nat)
    requires
        d < 10,
    ensures
        digit_value(digit_char(d)) == d,
        is_digit(digit_char(d)),
{
    assert(digit_char(d) as int == d + 48);
}

/// Reading back the decimal writing of `n` gives `n`.
pub proof fn lemma_decimal_value_of_string(n: nat)
    ensures
        decimal_value(decimal_string(n)) == n,
    decreases n,
{
    if n < 10 {
        lemma_digit_char_value(n);
        let t = seq![digit_char(n)];
        assert(t.drop_last() =~= Seq::<char>::empty());
        assert(decimal_value(t.drop_last()) == 0);
        assert(decimal_string(n) == t);
        assert(decimal_value(t) == digit_value(t.last()));
    } else {
        lemma_digit_char_value(n % 10);
        lemma_decimal_value_of_string(n / 10);
        let s = decimal_string(n / 10);
        assert(s.push(digit_char(n % 10)).drop_last() =~= s);
        assert(n == (n / 10) * 10 + n % 10) by (nonlinear_arith);
        let t = s.push(digit_char(n % 10));
        assert(decimal_string(n) == t);
        assert(decimal_value(t) == decimal_value(s) * 10 + digit_value(t.last()));
    }
}

/// What `u64::to_string` writes, `str::parse::<u64>` reads back unchanged.
pub proof fn lemma_parse_decimal_roundtrip(n: u64)
    ensures
        parse_u64_spec(decimal_string(n as nat)) == Some(n),
{
    lemma_decimal_string_digits(n as nat);
    lemma_decimal_value_of_string(n as nat);
    assert(unsigned_digits(decimal_string(n as nat)) == decimal_string(n as nat));
}


/// The character models of a sequence of strings.
pub open spec fn views(v: Seq<String>) -> Seq<Seq<char>> {
    v.map_values(|x: String| x@)
}

/// The index of the first `c` in `s`, or the length of `s` where there is none.
pub open spec fn find_char(s: Seq<char>, c: char) -> nat
    decreases s.len(),
{
    if s.len() == 0 {
        0
    } else if s[0] == c {
        0
    } else {
        1 + find_char(s.drop_first(), c)
    }
}

/// The pieces of `s` between the occurrences of `sep`, as `str::split` gives
/// them: one more piece than there are separators.
pub open spec fn split_spec(s: Seq<char>, sep: char) -> Seq<Seq<char>>
    decreases s.len(),
{
    let k = find_char(s, sep);
    if k < s.len() {
        seq![s.subrange(0, k as int)] + split_spec(s.subrange(k as int + 1, s.len() as int), sep)
    } else {
        seq![s]
    }
}

/// The pieces that `str::split_terminator` gives: those of `split`, less a
/// last piece that is empty.
pub open spec fn split_terminator_spec(s: Seq<char>, sep: char) -> Seq<Seq<char>> {
    let p = split_spec(s, sep);
    if p.last().len() == 0 {
        p.drop_last()
    } else {
        p
    }
}

/// `s` without one trailing carriage return.
pub open spec fn strip_cr(s: Seq<char>) -> Seq<char> {
    if s.len() > 0 && s.last() == '\r' {
        s.drop_last()
    } else {
        s
    }
}

/// The lines of `s` as `str::lines` gives them: split at `\n`, a final empty
/// line left out, and a `\r` just before a `\n` removed.
pub open spec fn lines_spec(s: Seq<char>) -> Seq<Seq<char>> {
    let p = split_spec(s, '\n');
    Seq::new(
        split_terminator_spec(s, '\n').len(),
        |i: int|
            if i + 1 < p.len() {
                strip_cr(p[i])
            } else {
                p[i]
            },
    )
}

proof fn lemma_split_spec_nonempty(s: Seq<char>, sep: char)
    ensures
        split_spec(s, sep).len() > 0,
    decreases s.len(),
{
    let k = find_char(s, sep);
    if k < s.len() {
        lemma_split_spec_nonempty(s.subrange(k as int + 1, s.len() as int), sep);
    }
}

proof fn lemma_find_char(t: Seq<char>, c: char, k: int)
    requires
        0 <= k <= t.len(),
        forall|m: int| 0 <= m < k ==> t[m] != c,
        k == t.len() || t[k] == c,
    ensures
        find_char(t, c) == k,
    decreases k,
{
    if k > 0 {
        lemma_find_char(t.drop_first(), c, k - 1);
    }
}

pub proof fn lemma_find_char_props(t: Seq<char>, c: char)
    ensures
        find_char(t, c) <= t.len(),
        forall|m: int| 0 <= m < find_char(t, c) ==> t[m] != c,
        find_char(t, c) < t.len() ==> t[find_char(t, c) as int] == c,
    decreases t.len(),
{
    if t.len() > 0 && t[0] != c {
        lemma_find_char_props(t.drop_first(), c);
        assert forall|m: int| 0 <= m < find_char(t, c) implies t[m] != c by {
            if m > 0 {
                assert(t[m] == t.drop_first()[m - 1]);
            }
        }
    }
}

/// Splitting `x`, a separator and `y` gives the pieces of `x`, then those of `y`.
pub proof fn lemma_split_concat(x: Seq<char>, sep: char, y: Seq<char>)
    ensures
        split_spec(x + seq![sep] + y, sep) == split_spec(x, sep) + split_spec(y, sep),
    decreases x.len(),
{
    let z = x + seq![sep] + y;
    let k = find_char(x, sep);
    lemma_find_char_props(x, sep);
    if k < x.len() {
        lemma_find_char(z, sep, k as int);
        let xr = x.subrange(k as int + 1, x.len() as int);
        assert(z.subrange(0, k as int) =~= x.subrange(0, k as int));
        assert(z.subrange(k as int + 1, z.len() as int) =~= xr + seq![sep] + y);
        lemma_split_concat(xr, sep, y);
        assert(split_spec(x, sep) == seq![x.subrange(0, k as int)] + split_spec(xr, sep));
        assert(split_spec(z, sep) =~= split_spec(x, sep) + split_spec(y, sep));
    } else {
        lemma_find_char(z, sep, x.len() as int);
        assert(z.subrange(0, x.len() as int) =~= x);
        assert(z.subrange(x.len() as int + 1, z.len() as int) =~= y);
        assert(split_spec(z, sep) =~= split_spec(x, sep) + split_spec(y, sep));
    }
}

/// A text without the separator is one piece.
proof fn lemma_split_single(t: Seq<char>, sep: char)
    requires
        forall|i: int| 0 <= i < t.len() ==> t[i] != sep,
    ensures
        split_spec(t, sep) == seq![t],
{
    lemma_find_char(t, sep, t.len() as int);
}

/// The lines, each followed by a newline.
pub open spec fn newline_terminated(lines: Seq<Seq<char>>) -> Seq<char>
    decreases lines.len(),
{
    if lines.len() == 0 {
        Seq::empty()
    } else {
        newline_terminated(lines.drop_last()) + lines.last() + seq!['\n']
    }
}

proof fn lemma_split_terminated_then(lines: Seq<Seq<char>>, t: Seq<char>)
    requires
        forall|i: int| 0 <= i < t.len() ==> t[i] != '\n',
        forall|k: int, i: int|
            0 <= k < lines.len() && 0 <= i < lines[k].len() ==> #[trigger] lines[k][i] != '\n',
    ensures
        split_spec(newline_terminated(lines) + t, '\n') == lines.push(t),
    decreases lines.len(),
{
    if lines.len() == 0 {
        assert(newline_terminated(lines) + t =~= t);
        lemma_split_single(t, '\n');
        assert(lines.push(t) =~= seq![t]);
    } else {
        let init = lines.drop_last();
        let m = lines.last();
        assert forall|k: int, i: int|
            0 <= k < init.len() && 0 <= i < init[k].len() implies #[trigger] init[k][i] != '\n' by {
            assert(init[k] == lines[k]);
        }
        assert forall|i: int| 0 <= i < m.len() implies m[i] != '\n' by {
            assert(lines[lines.len() - 1][i] != '\n');
        }
        lemma_split_terminated_then(init, m);
        lemma_split_concat(newline_terminated(init) + m, '\n', t);
        assert(newline_terminated(lines) + t =~= (newline_terminated(init) + m) + seq!['\n'] + t);
        lemma_split_single(t, '\n');
        assert(init.push(m) =~= lines);
    }
}

/// Lines written one after the other, each followed by a newline, are read
/// back unchanged, where none holds a newline or ends with a carriage return.
pub proof fn law_lines_of_terminated(lines: Seq<Seq<char>>)
    requires
        forall|k: int, i: int|
            0 <= k < lines.len() && 0 <= i < lines[k].len() ==> #[trigger] lines[k][i] != '\n',
        forall|k: int| 0 <= k < lines.len() && lines[k].len() > 0 ==> (#[trigger] lines[k]).last()
            != '\r',
    ensures
        lines_spec(newline_terminated(lines)) == lines,
{
    let e = Seq::<char>::empty();
    lemma_split_terminated_then(lines, e);
    assert(newline_terminated(lines) + e =~= newline_terminated(lines));
    let p = split_spec(newline_terminated(lines), '\n');
    assert(p == lines.push(e));
    assert(split_terminator_spec(newline_terminated(lines), '\n') =~= lines);
    let r = lines_spec(newline_terminated(lines));
    assert forall|i: int| 0 <= i < lines.len() implies r[i] == lines[i] by {
        assert(p[i] == lines[i]);
        assert(i + 1 < p.len());
    }
    assert(r =~= lines);
}

/// A non-empty text without the separator is one piece.
pub proof fn lemma_split_terminator_single(t: Seq<char>, sep: char)
    requires
        t.len() > 0,
        forall|i: int| 0 <= i < t.len() ==> t[i] != sep,
    ensures
        split_terminator_spec(t, sep) == seq![t],
{
    lemma_find_char(t, sep, t.len() as int);
    assert(split_spec(t, sep) == seq![t]);
}

/// A non-empty text that does not end with the separator has a non-empty last piece.
pub proof fn lemma_split_last_nonempty(x: Seq<char>, sep: char)
    requires
        x.len() > 0,
        x.last() != sep,
    ensures
        split_spec(x, sep).len() > 0,
        split_spec(x, sep).last().len() > 0,
    decreases x.len(),
{
    let k = find_char(x, sep);
    lemma_find_char_props(x, sep);
    if k < x.len() {
        let xr = x.subrange(k as int + 1, x.len() as int);
        assert(xr.last() == x.last());
        lemma_split_last_nonempty(xr, sep);
        assert(split_spec(x, sep) == seq![x.subrange(0, k as int)] + split_spec(xr, sep));
    }
}

/// The terms of `x`, a separator and `y`: the pieces of `x`, then the terms of `y`,
/// where `x` is non-empty and does not end with the separator.
pub proof fn lemma_split_terminator_concat(x: Seq<char>, sep: char, y: Seq<char>)
    requires
        x.len() > 0,
        x.last() != sep,
    ensures
        split_terminator_spec(x, sep) == split_spec(x, sep),
        split_terminator_spec(x + seq![sep] + y, sep) == split_terminator_spec(x, sep)
            + split_terminator_spec(y, sep),
{
    lemma_split_last_nonempty(x, sep);
    lemma_split_concat(x, sep, y);
    lemma_split_spec_nonempty(y, sep);
    let px = split_spec(x, sep);
    let py = split_spec(y, sep);
    assert((px + py).last() == py.last());
    if py.last().len() == 0 {
        assert((px + py).drop_last() =~= px + py.drop_last());
    }
}

/// Cuts `s` at every `sep`, as `str::split` does.
pub fn split_pieces(s: &str, sep: char) -> (r: Vec<String>)
    ensures
        views(r@) == split_spec(s@, sep),
{
    let n = s.unicode_len();
    let mut res: Vec<String> = Vec::new();
    let mut start: usize = 0;
    let mut j: usize = 0;
    assert(s@.subrange(0, n as int) =~= s@);
    while j < n
        invariant
            n == s@.len(),
            start <= j <= n,
            forall|m: int| start <= m < j ==> s@[m] != sep,
            views(res@) + split_spec(s@.subrange(start as int, n as int), sep) == split_spec(
                s@,
                sep,
            ),
        decreases n - j,
    {
        let c = s.get_char(j);
        if c == sep {
            let piece = s.substring_char(start, j).to_string();
            proof {
                let t = s@.subrange(start as int, n as int);
                lemma_find_char(t, sep, j - start);
                assert(t.subrange(0, j - start) =~= piece@);
                assert(t.subrange(j - start + 1, t.len() as int) =~= s@.subrange(
                    j + 1,
                    n as int,
                ));
                assert(views(res@.push(piece)) =~= views(res@).push(piece@));
                assert(views(res@).push(piece@) + split_spec(s@.subrange(j + 1, n as int), sep)
                    =~= views(res@) + split_spec(t, sep));
            }
            res.push(piece);
            start = j + 1;
        }
        j = j + 1;
    }
    let last = s.substring_char(start, n).to_string();
    proof {
        let t = s@.subrange(start as int, n as int);
        lemma_find_char(t, sep, n - start);
        assert(t =~= last@);
        assert(views(res@.push(last)) =~= views(res@) + seq![last@]);
    }
    res.push(last);
    res
}

/// Cuts `s` at every `sep` and leaves out a last empty piece, as
/// `str::split_terminator` does.
pub fn split_terminator(s: &str, sep: char) -> (r: Vec<String>)
    ensures
        views(r@) == split_terminator_spec(s@, sep),
{
    let mut pieces = split_pieces(s, sep);
    proof {
        lemma_split_spec_nonempty(s@, sep);
    }
    let k = pieces.len() - 1;
    if pieces[k].unicode_len() == 0 {
        pieces.pop();
        assert(views(pieces@) =~= split_spec(s@, sep).drop_last());
    }
    pieces
}

/// Removes one trailing carriage return.
fn without_cr(s: String) -> (r: String)
    ensures
        r@ == strip_cr(s@),
{
    let n = s.as_str().unicode_len();
    if n > 0 && s.as_str().get_char(n - 1) == '\r' {
        s.as_str().substring_char(0, n - 1).to_string()
    } else {
        s
    }
}

/// The lines of `s`, as `str::lines` gives them.
pub fn lines(s: &str) -> (r: Vec<String>)
    ensures
        views(r@) == lines_spec(s@),
{
    let pieces = split_pieces(s, '\n');
    let ghost p = split_spec(s@, '\n');
    proof {
        lemma_split_spec_nonempty(s@, '\n');
    }
    let total = pieces.len();
    let mut count = total;
    if pieces[total - 1].unicode_len() == 0 {
        count = total - 1;
    }
    assert(count == split_terminator_spec(s@, '\n').len());
    let mut res: Vec<String> = Vec::new();
    let mut i: usize = 0;
    while i < count
        invariant
            count <= total,
            total == pieces@.len(),
            views(pieces@) == p,
            p == split_spec(s@, '\n'),
            i <= count,
            res@.len() == i,
            forall|m: int|
                0 <= m < i ==> (#[trigger] res@[m])@ == (if m + 1 < p.len() {
                    strip_cr(p[m])
                } else {
                    p[m]
                }),
        decreases count - i,
    {
        let piece = pieces[i].clone();
        assert(piece@ == p[i as int]);
        if i + 1 < total {
            let line = without_cr(piece);
            res.push(line);
        } else {
            res.push(piece);
        }
        i = i + 1;
    }
    assert(views(res@) =~= lines_spec(s@));
    res
}


/// Compares two strings character by character.
pub fn str_eq(a: &str, b: &str) -> (r: bool)
    ensures
        r == (a@ == b@),
{
    let n = a.unicode_len();
    if n != b.unicode_len() {
        return false;
    }
    let mut i: usize = 0;
    while i < n
        invariant
            n == a@.len(),
            n == b@.len(),
            i <= n,
            forall|m: int| 0 <= m < i ==> a@[m] == b@[m],
        decreases n - i,
    {
        if a.get_char(i) != b.get_char(i) {
            return false;
        }
        i = i + 1;
    }
    assert(a@ =~= b@);
    true
}

/// Tests whether `name` is one of `names`.
pub fn contains_string(names: &[String], name: &str) -> (r: bool)
    ensures
        r == views(names@).contains(name@),
{
    let mut i: usize = 0;
    while i < names.len()
        invariant
            i <= names@.len(),
            forall|k: int| 0 <= k < i ==> names@[k]@ != name@,
        decreases names@.len() - i,
    {
        if str_eq(names[i].as_str(), name) {
            assert(views(names@)[i as int] == name@);
            return true;
        }
        i = i + 1;
    }
    assert forall|k: int| 0 <= k < views(names@).len() implies views(names@)[k] != name@ by {
        assert(views(names@)[k] == names@[k]@);
    }
    false
}

} // verus!
