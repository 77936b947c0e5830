//! Character-level text helpers: hexadecimal digits, splitting on a separator,
//! joining with a separator.
use vstd::prelude::*;

verus! {

/// The value of a hexadecimal digit (either case), if `c` is one.
pub open spec fn hex_digit_value(c: char) -> Option<int> {
    let x = c as u32;
    if 48 <= x <= 57 {
        Some(x - 48)
    } else if 97 <= x <= 102 {
        Some(x - 87)
    } else if 65 <= x <= 70 {
        Some(x - 55)
    } else {
        None
    }
}

/// Every character of `d` is a hexadecimal digit.
pub open spec fn all_hex_digits(d: Seq<char>) -> bool {
    forall|i: int| 0 <= i < d.len() ==> (#[trigger] hex_digit_value(d[i])) is Some
}

/// The number that the hexadecimal digits `d` denote, most significant first.
pub open spec fn hex_digits_value(d: Seq<char>) -> int
    decreases d.len(),
{
    if d.len() == 0 {
        0
    } else {
        hex_digits_value(d.drop_last()) * 16 + hex_digit_value(d.last()).unwrap()
    }
}

/// `s` without one leading `+`, if it has one.
pub open spec fn strip_plus(s: Seq<char>) -> Seq<char> {
    if s.len() > 0 && s[0] == '+' {
        s.drop_first()
    } else {
        s
    }
}

/// What `u8::from_str_radix(s, 16)` returns: an optional `+`, then at least
/// one hexadecimal digit, and nothing else, denoting a value below 256.
pub open spec fn parse_hex_u8(s: Seq<char>) -> Option<u8> {
    let digits = strip_plus(s);
    if digits.len() > 0 && all_hex_digits(digits) && hex_digits_value(digits) <= 255 {
        Some(hex_digits_value(digits) as u8)
    } else {
        None
    }
}

/// The pieces of `s` between occurrences of `sep`, as `str::split` gives
/// them: one more piece than there are separators, empty pieces included.
pub open spec fn split_on(s: Seq<char>, sep: char) -> Seq<Seq<char>>
    decreases s.len(),
{
    if s.len() == 0 {
        seq![Seq::empty()]
    } else {
        let parts = split_on(s.drop_last(), sep);
        if s.last() == sep {
            parts.push(Seq::empty())
        } else {
            parts.update(parts.len() - 1, parts.last().push(s.last()))
        }
    }
}

/// The pieces `parts` with `sep` between each two of them.
pub open spec fn join_with(parts: Seq<Seq<char>>, sep: char) -> Seq<char>
    decreases parts.len(),
{
    if parts.len() == 0 {
        Seq::empty()
    } else if parts.len() == 1 {
        parts[0]
    } else {
        join_with(parts.drop_last(), sep).push(sep) + parts.last()
    }
}

/// The lowercase hexadecimal digit for `d`, which is below 16.
pub open spec fn hex_char(d: int) -> char {
    if d == 0 { '0' } else if d == 1 { '1' } else if d == 2 { '2' } else if d == 3 { '3' }
    else if d == 4 { '4' } else if d == 5 { '5' } else if d == 6 { '6' } else if d == 7 { '7' }
    else if d == 8 { '8' } else if d == 9 { '9' } else if d == 10 { 'a' } else if d == 11 { 'b' }
    else if d == 12 { 'c' } else if d == 13 { 'd' } else if d == 14 { 'e' } else { 'f' }
}

/// `format!("{:02x}", b)`: two lowercase hexadecimal digits.
pub open spec fn byte_text(b: u8) -> Seq<char> {
    seq![hex_char(b as int / 16), hex_char(b as int % 16)]
}

/// `c` does not occur in `s`.
pub open spec fn lacks(s: Seq<char>, c: char) -> bool {
    forall|i: int| 0 <= i < s.len() ==> s[i] != c
}


/// `split_on` always gives at least one piece.
pub proof fn lemma_split_len(s: Seq<char>, sep: char)
    ensures
        split_on(s, sep).len() >= 1,
    decreases s.len(),
{
    if s.len() > 0 {
        lemma_split_len(s.drop_last(), sep);
    }
}

/// Text without the separator splits into itself alone.
pub proof fn lemma_split_lacking(p: Seq<char>, sep: char)
    requires
        lacks(p, sep),
    ensures
        split_on(p, sep) == seq![p],
    decreases p.len(),
{
    if p.len() == 0 {
        assert(p =~= Seq::<char>::empty());
        assert(split_on(p, sep) =~= seq![p]);
    } else {
        assert(lacks(p.drop_last(), sep)) by {
            assert forall|i: int| 0 <= i < p.drop_last().len() implies p.drop_last()[i] != sep by {
                assert(p.drop_last()[i] == p[i]);
            }
        }
        lemma_split_lacking(p.drop_last(), sep);
        assert(p[p.len() - 1] != sep);
        assert(p.drop_last().push(p.last()) =~= p);
        assert(split_on(p, sep) =~= seq![p]);
    }
}

/// Appending text without the separator extends the last piece.
pub proof fn lemma_split_append(x: Seq<char>, l: Seq<char>, sep: char)
    requires
        lacks(l, sep),
    ensures
        split_on(x + l, sep).len() == split_on(x, sep).len(),
        split_on(x + l, sep) == split_on(x, sep).update(
            split_on(x, sep).len() - 1,
            split_on(x, sep).last() + l,
        ),
    decreases l.len(),
{
    lemma_split_len(x, sep);
    if l.len() == 0 {
        assert(x + l =~= x);
        assert(split_on(x, sep).last() + l =~= split_on(x, sep).last());
        assert(split_on(x + l, sep) =~= split_on(x, sep).update(
            split_on(x, sep).len() - 1,
            split_on(x, sep).last() + l,
        ));
    } else {
        let l0 = l.drop_last();
        lemma_split_append(x, l0, sep);
        assert((x + l).drop_last() =~= x + l0);
        assert(lacks(l0, sep)) by {
            assert forall|i: int| 0 <= i < l0.len() implies l0[i] != sep by {
                assert(l0[i] == l[i]);
            }
        }
        assert(l[l.len() - 1] != sep);
        assert((x + l).last() == l.last());
        let sx = split_on(x, sep);
        let k = sx.len() - 1;
        assert(split_on(x + l0, sep).last() == sx.last() + l0);
        assert((sx.last() + l0).push(l.last()) =~= sx.last() + l);
        assert(split_on(x + l, sep) =~= split_on(x, sep).update(
            split_on(x, sep).len() - 1,
            split_on(x, sep).last() + l,
        ));
    }
}

/// Splitting undoes joining, for pieces that do not hold the separator.
pub proof fn lemma_split_join(parts: Seq<Seq<char>>, sep: char)
    requires
        parts.len() >= 1,
        forall|i: int| 0 <= i < parts.len() ==> lacks(#[trigger] parts[i], sep),
    ensures
        split_on(join_with(parts, sep), sep) == parts,
    decreases parts.len(),
{
    if parts.len() == 1 {
        lemma_split_lacking(parts[0], sep);
        assert(split_on(join_with(parts, sep), sep) =~= parts);
    } else {
        let init = parts.drop_last();
        assert(lacks(parts[parts.len() - 1], sep));
        assert forall|i: int| 0 <= i < init.len() implies lacks(#[trigger] init[i], sep) by {
            assert(init[i] == parts[i]);
        }
        lemma_split_join(init, sep);
        let a = join_with(init, sep).push(sep);
        assert(a.drop_last() =~= join_with(init, sep));
        lemma_split_append(a, parts.last(), sep);
        assert(Seq::<char>::empty() + parts.last() =~= parts.last());
        assert(split_on(join_with(parts, sep), sep) =~= parts);
    }
}

/// Extending the last piece extends the joined text.
pub proof fn lemma_join_extend_last(parts: Seq<Seq<char>>, sep: char, c: char)
    requires
        parts.len() >= 1,
    ensures
        join_with(parts.update(parts.len() - 1, parts.last().push(c)), sep) == join_with(parts, sep).push(c),
{
    let q = parts.update(parts.len() - 1, parts.last().push(c));
    if parts.len() == 1 {
        assert(join_with(q, sep) == q[0]);
    } else {
        assert(q.drop_last() =~= parts.drop_last());
        assert(join_with(q, sep) =~= join_with(parts, sep).push(c));
    }
}

/// Joining undoes splitting: the pieces with the separator between them
/// are the text they were split from.
pub proof fn lemma_join_split(s: Seq<char>, sep: char)
    ensures
        join_with(split_on(s, sep), sep) == s,
    decreases s.len(),
{
    if s.len() == 0 {
        assert(join_with(split_on(s, sep), sep) =~= s);
    } else {
        let s0 = s.drop_last();
        let parts = split_on(s0, sep);
        lemma_join_split(s0, sep);
        lemma_split_len(s0, sep);
        if s.last() == sep {
            let q = parts.push(Seq::<char>::empty());
            assert(q.drop_last() =~= parts);
            assert(join_with(q, sep) =~= s0.push(sep));
        } else {
            lemma_join_extend_last(parts, sep, s.last());
        }
        assert(s0.push(s.last()) =~= s);
    }
}

/// A lowercase hexadecimal digit.
pub open spec fn is_lower_hex(c: char) -> bool {
    c == '0' || c == '1' || c == '2' || c == '3' || c == '4' || c == '5' || c == '6' || c == '7'
        || c == '8' || c == '9' || c == 'a' || c == 'b' || c == 'c' || c == 'd' || c == 'e'
        || c == 'f'
}

/// Two lowercase hexadecimal digits read as a byte and written back give
/// the same two digits.
pub proof fn lemma_two_digits(t: Seq<char>)
    requires
        t.len() == 2,
        is_lower_hex(t[0]),
        is_lower_hex(t[1]),
    ensures
        parse_hex_u8(t) is Some,
        byte_text(parse_hex_u8(t).unwrap()) == t,
{
    let hi = hex_digit_value(t[0]).unwrap();
    let lo = hex_digit_value(t[1]).unwrap();
    assert(hex_digit_value(t[0]) is Some && 0 <= hi < 16 && hex_char(hi) == t[0]);
    assert(hex_digit_value(t[1]) is Some && 0 <= lo < 16 && hex_char(lo) == t[1]);
    assert(strip_plus(t) =~= t);
    assert(t.drop_last() =~= seq![t[0]]);
    assert(t.drop_last().drop_last() =~= Seq::<char>::empty());
    assert(hex_digits_value(Seq::<char>::empty()) == 0);
    assert(t.drop_last().last() == t[0]);
    assert(t.last() == t[1]);
    assert(hex_digits_value(t.drop_last()) == hi);
    assert(hex_digits_value(t) == hi * 16 + lo);
    assert(all_hex_digits(t));
    let b = (hi * 16 + lo) as u8;
    assert(b as int / 16 == hi && b as int % 16 == lo);
    assert(byte_text(b) =~= t);
}

/// Two hexadecimal digits read back as the byte they were written from.
pub proof fn lemma_byte_text(b: u8)
    ensures
        parse_hex_u8(byte_text(b)) == Some(b),
        lacks(byte_text(b), ':'),
        byte_text(b).len() == 2,
{
    let t = byte_text(b);
    let hi = b as int / 16;
    let lo = b as int % 16;
    assert(hex_digit_value(hex_char(hi)) == Some(hi));
    assert(hex_digit_value(hex_char(lo)) == Some(lo));
    assert(strip_plus(t) =~= t);
    assert(t.drop_last() =~= seq![hex_char(hi)]);
    assert(t.drop_last().drop_last() =~= Seq::<char>::empty());
    assert(hex_digits_value(Seq::<char>::empty()) == 0);
    assert(t.drop_last().last() == hex_char(hi));
    assert(t.last() == hex_char(lo));
    assert(hex_digits_value(t.drop_last()) == hi);
    assert(hex_digits_value(t) == b as int);
    assert(all_hex_digits(t));
}

/// The characters of `s`, in order.
pub fn chars_of(s: &str) -> (v: Vec<char>)
    ensures
        v@ == s@,
{
    let mut v: Vec<char> = Vec::new();
    for c in it: s.chars()
        invariant
            it.seq() == s@,
            v@ == it.seq().take(it.index()),
    {
        v.push(c);
    }
    v
}

/// Appends `c` to `s`.
#[verifier::external_body]
pub(crate) fn push_char(s: &mut String, c: char)
    ensures
        final(s)@ == old(s)@.push(c),
{
    s.push(c);
}

/// A string holding the characters `v`.
pub fn string_of(v: &Vec<char>) -> (s: String)
    ensures
        s@ == v@,
{
    let mut s = String::new();
    for i in 0..v.len()
        invariant
            s@ == v@.take(i as int),
    {
        push_char(&mut s, v[i]);
        assert(v@.take(i + 1) =~= v@.take(i as int).push(v@[i as int]));
    }
    assert(v@.take(v.len() as int) =~= v@);
    s
}

/// Splits `v` at every `sep`, as `str::split` does.
pub fn split_chars(v: &Vec<char>, sep: char) -> (parts: Vec<Vec<char>>)
    ensures
        parts@.len() == split_on(v@, sep).len(),
        forall|j: int| 0 <= j < parts@.len() ==> #[trigger] parts@[j]@ == split_on(v@, sep)[j],
{
    let mut parts: Vec<Vec<char>> = Vec::new();
    let mut cur: Vec<char> = Vec::new();
    assert(v@.take(0) =~= Seq::<char>::empty());
    for i in 0..v.len()
        invariant
            split_on(v@.take(i as int), sep).len() == parts@.len() + 1,
            forall|j: int|
                0 <= j < parts@.len() ==> #[trigger] parts@[j]@ == split_on(
                    v@.take(i as int),
                    sep,
                )[j],
            split_on(v@.take(i as int), sep)[parts@.len() as int] == cur@,
    {
        let c = v[i];
        assert(v@.take(i + 1).drop_last() =~= v@.take(i as int));
        if c == sep {
            parts.push(cur);
            cur = Vec::new();
        } else {
            cur.push(c);
        }
    }
    assert(v@.take(v.len() as int) =~= v@);
    parts.push(cur);
    parts
}

/// The value of `c` as a hexadecimal digit, if it is one.
pub fn hex_digit(c: char) -> (r: Option<u8>)
    ensures
        match r {
            Some(d) => hex_digit_value(c) == Some(d as int) && d < 16,
            None => hex_digit_value(c) is None,
        },
{
    let x = c as u32;
    if 48 <= x && x <= 57 {
        Some((x - 48) as u8)
    } else if 97 <= x && x <= 102 {
        Some((x - 87) as u8)
    } else if 65 <= x && x <= 70 {
        Some((x - 55) as u8)
    } else {
        None
    }
}

proof fn lemma_strip_plus_push(p: Seq<char>, c: char)
    requires
        !(p.len() == 0 && c == '+'),
    ensures
        strip_plus(p.push(c)) == strip_plus(p).push(c),
{
    if p.len() > 0 {
        assert(p.push(c)[0] == p[0]);
        if p[0] == '+' {
            assert(p.push(c).drop_first() =~= p.drop_first().push(c));
        }
    }
}

/// Parses `part` as `u8::from_str_radix(part, 16)` does.
pub fn parse_hex_byte(part: &Vec<char>) -> (r: Option<u8>)
    ensures
        r == parse_hex_u8(part@),
{
    let mut valid = true;
    let mut has_digit = false;
    let mut acc: u16 = 0;
    assert(part@.take(0) =~= Seq::<char>::empty());
    for i in 0..part.len()
        invariant
            valid == (all_hex_digits(strip_plus(part@.take(i as int))) && hex_digits_value(
                strip_plus(part@.take(i as int)),
            ) <= 255),
            valid ==> acc == hex_digits_value(strip_plus(part@.take(i as int))),
            has_digit == (strip_plus(part@.take(i as int)).len() > 0),
    {
        let c = part[i];
        let ghost p = part@.take(i as int);
        let ghost d0 = strip_plus(p);
        assert(part@.take(i + 1) =~= p.push(c));
        if i == 0 && c == '+' {
            assert(strip_plus(p.push(c)) =~= Seq::<char>::empty());
        } else {
            proof {
                lemma_strip_plus_push(p, c);
            }
            let ghost d1 = d0.push(c);
            assert(d1.drop_last() =~= d0);
            has_digit = true;
            match hex_digit(c) {
                Some(d) => {
                    if valid {
                        acc = acc * 16 + d as u16;
                        valid = acc <= 255;
                        assert(all_hex_digits(d1)) by {
                            assert forall|k: int| 0 <= k < d1.len() implies (#[trigger] hex_digit_value(d1[k])) is Some by {
                                if k < d0.len() {
                                    assert(d1[k] == d0[k]);
                                }
                            }
                        }
                    } else {
                        proof {
                            if all_hex_digits(d0) {
                                assert(all_hex_digits(d1)) by {
                                    assert forall|k: int| 0 <= k < d1.len() implies (#[trigger] hex_digit_value(d1[k])) is Some by {
                                        if k < d0.len() {
                                            assert(d1[k] == d0[k]);
                                        }
                                    }
                                }
                            } else {
                                let k = choose|k: int| 0 <= k < d0.len() && (#[trigger] hex_digit_value(d0[k])) is None;
                                assert(d1[k] == d0[k]);
                            }
                        }
                    }
                },
                None => {
                    valid = false;
                    assert(hex_digit_value(d1[d1.len() - 1]) is None);
                },
            }
        }
    }
    assert(part@.take(part.len() as int) =~= part@);
    if valid && has_digit {
        Some(acc as u8)
    } else {
        None
    }
}

/// Writes the two lowercase hexadecimal digits of `b` at the end of `s`.
pub fn push_byte_text(s: &mut String, b: u8)
    ensures
        final(s)@ == old(s)@ + byte_text(b),
{
    push_char(s, hex_digit_char(b / 16));
    push_char(s, hex_digit_char(b % 16));
    assert(final(s)@ =~= old(s)@ + byte_text(b));
}

/// The lowercase hexadecimal digit for `d`.
pub fn hex_digit_char(d: u8) -> (c: char)
    requires
        d < 16,
    ensures
        c == hex_char(d as int),
{
    if d == 0 { '0' } else if d == 1 { '1' } else if d == 2 { '2' } else if d == 3 { '3' }
    else if d == 4 { '4' } else if d == 5 { '5' } else if d == 6 { '6' } else if d == 7 { '7' }
    else if d == 8 { '8' } else if d == 9 { '9' } else if d == 10 { 'a' } else if d == 11 { 'b' }
    else if d == 12 { 'c' } else if d == 13 { 'd' } else if d == 14 { 'e' } else { 'f' }
}

/// Whether `c` is white space in the sense of `char::is_whitespace` (the
/// Unicode `White_Space` property).
pub open spec fn is_white_space(c: char) -> bool {
    let x = c as u32;
    (9 <= x <= 13) || x == 32 || x == 0x85 || x == 0xA0 || x == 0x1680 || (0x2000 <= x <= 0x200A)
        || x == 0x2028 || x == 0x2029 || x == 0x202F || x == 0x205F || x == 0x3000
}

/// `s` without its leading white space.
pub open spec fn trim_start(s: Seq<char>) -> Seq<char>
    decreases s.len(),
{
    if s.len() > 0 && is_white_space(s[0]) {
        trim_start(s.drop_first())
    } else {
        s
    }
}

/// `s` without its trailing white space.
pub open spec fn trim_end(s: Seq<char>) -> Seq<char>
    decreases s.len(),
{
    if s.len() > 0 && is_white_space(s.last()) {
        trim_end(s.drop_last())
    } else {
        s
    }
}

/// What `str::trim` gives: `s` without leading and trailing white space.
pub open spec fn trim(s: Seq<char>) -> Seq<char> {
    trim_end(trim_start(s))
}

/// A line that ended in a line feed loses a carriage return before it.
pub open spec fn strip_cr(l: Seq<char>) -> Seq<char> {
    if l.len() > 0 && l.last() == '\r' {
        l.drop_last()
    } else {
        l
    }
}

/// What `str::lines` gives: the pieces between line feeds, each that ended
/// in a line feed without a carriage return right before it, and no last
/// piece when the text ends in a line feed.
pub open spec fn lines_of(s: Seq<char>) -> Seq<Seq<char>> {
    let parts = split_on(s, '\n');
    let n = parts.len();
    Seq::new((n - 1) as nat, |i: int| strip_cr(parts[i])) + if parts[n - 1].len() == 0 {
        Seq::empty()
    } else {
        seq![parts[n - 1]]
    }
}

/// `s` begins with `p`.
pub open spec fn starts_with(s: Seq<char>, p: Seq<char>) -> bool {
    p.len() <= s.len() && s.take(p.len() as int) == p
}

/// Whether `c` is white space.
pub fn white_space(c: char) -> (r: bool)
    ensures
        r == is_white_space(c),
{
    let x = c as u32;
    (9 <= x && x <= 13) || x == 32 || x == 0x85 || x == 0xA0 || x == 0x1680 || (0x2000 <= x && x
        <= 0x200A) || x == 0x2028 || x == 0x2029 || x == 0x202F || x == 0x205F || x == 0x3000
}

/// `v` without leading and trailing white space.
pub fn trim_chars(v: &Vec<char>) -> (r: Vec<char>)
    ensures
        r@ == trim(v@),
{
    let mut start: usize = 0;
    assert(v@.subrange(0, v@.len() as int) =~= v@);
    while start < v.len() && white_space(v[start])
        invariant
            start <= v@.len(),
            trim_start(v@) == trim_start(v@.subrange(start as int, v@.len() as int)),
        decreases v@.len() - start,
    {
        assert(v@.subrange(start as int, v@.len() as int).drop_first() =~= v@.subrange(start + 1, v@.len() as int));
        start = start + 1;
    }
    let ghost front = v@.subrange(start as int, v@.len() as int);
    assert(trim_start(front) == front);
    let mut end: usize = v.len();
    while end > start && white_space(v[end - 1])
        invariant
            start <= end <= v@.len(),
            trim(v@) == trim_end(v@.subrange(start as int, end as int)),
        decreases end,
    {
        assert(v@.subrange(start as int, end as int).drop_last() =~= v@.subrange(start as int, end - 1));
        end = end - 1;
    }
    let mut r: Vec<char> = Vec::new();
    for i in start..end
        invariant
            start <= end <= v@.len(),
            r@ == v@.subrange(start as int, i as int),
    {
        r.push(v[i]);
        assert(v@.subrange(start as int, i + 1) =~= v@.subrange(start as int, i as int).push(v@[i as int]));
    }
    assert(trim_end(r@) == r@);
    r
}

/// The lines of `v`, as `str::lines` gives them.
pub fn lines_chars(v: &Vec<char>) -> (r: Vec<Vec<char>>)
    ensures
        r@.len() == lines_of(v@).len(),
        forall|j: int| 0 <= j < r@.len() ==> #[trigger] r@[j]@ == lines_of(v@)[j],
{
    let parts = split_chars(v, '\n');
    let ghost sp = split_on(v@, '\n');
    proof {
        lemma_split_len(v@, '\n');
    }
    let n = parts.len();
    let mut r: Vec<Vec<char>> = Vec::new();
    for i in 0..n - 1
        invariant
            n == parts@.len(),
            n == sp.len(),
            n >= 1,
            sp == split_on(v@, '\n'),
            forall|j: int| 0 <= j < n ==> #[trigger] parts@[j]@ == sp[j],
            r@.len() == i,
            forall|j: int| 0 <= j < i ==> #[trigger] r@[j]@ == strip_cr(sp[j]),
    {
        let mut line = parts[i].clone();
        assert(line@ == sp[i as int]);
        if line.len() > 0 && line[line.len() - 1] == '\r' {
            line.pop();
        }
        r.push(line);
    }
    if parts[n - 1].len() > 0 {
        r.push(parts[n - 1].clone());
    }
    let ghost want = lines_of(v@);
    assert(want.len() == r@.len());
    r
}

/// Whether `s` begins with `p`.
pub fn starts_with_chars(s: &Vec<char>, p: &Vec<char>) -> (r: bool)
    ensures
        r == starts_with(s@, p@),
{
    if p.len() > s.len() {
        return false;
    }
    for i in 0..p.len()
        invariant
            p@.len() <= s@.len(),
            forall|j: int| 0 <= j < i ==> s@[j] == p@[j],
    {
        if s[i] != p[i] {
            assert(s@.take(p@.len() as int)[i as int] != p@[i as int]);
            return false;
        }
    }
    assert(s@.take(p@.len() as int) =~= p@);
    true
}

} // verus!
