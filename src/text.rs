use vstd::prelude::*;

verus! {

/// The Unicode `White_Space` characters, which `char::is_whitespace` accepts.
pub open spec fn is_space(c: char) -> bool {
    let u = c as u32;
    ||| 0x09 <= u <= 0x0d
    ||| u == 0x20
    ||| u == 0x85
    ||| u == 0xa0
    ||| u == 0x1680
    ||| 0x2000 <= u <= 0x200a
    ||| u == 0x2028
    ||| u == 0x2029
    ||| u == 0x202f
    ||| u == 0x205f
    ||| u == 0x3000
}

/// Whether `c` is whitespace.
pub fn is_space_char(c: char) -> (r: bool)
    ensures
        r == is_space(c),
{
    let u = c as u32;
    (0x09 <= u && u <= 0x0d) || u == 0x20 || u == 0x85 || u == 0xa0 || u == 0x1680 || (0x2000
        <= u && u <= 0x200a) || u == 0x2028 || u == 0x2029 || u == 0x202f || u == 0x205f || u
        == 0x3000
}

/// An ASCII decimal digit.
pub open spec fn is_digit(c: char) -> bool {
    0x30 <= (c as u32) <= 0x39
}

/// The value of the ASCII digit `c`.
pub open spec fn digit_value(c: char) -> nat {
    ((c as u32) - 0x30) as nat
}

/// `c` lower-cases to the lower-case ASCII letter `t`: it is `t`, the
/// upper-case form of `t`, or, for `k`, the Kelvin sign U+212A, the one
/// character outside ASCII whose lower case is a single ASCII letter.
pub open spec fn folds_to(c: char, t: char) -> bool {
    ||| (c as u32) == (t as u32)
    ||| (0x61 <= (t as u32) <= 0x7a && (c as u32) == (t as u32) - 0x20)
    ||| ((t as u32) == 0x6b && (c as u32) == 0x212a)
}

/// `s` lower-cases to the lower-case ASCII word `t`, as `str::to_lowercase`
/// maps characters.
pub open spec fn equals_folded(s: Seq<char>, t: Seq<char>) -> bool {
    &&& s.len() == t.len()
    &&& forall|i: int| 0 <= i < s.len() ==> folds_to(#[trigger] s[i], t[i])
}

/// The lines of `s`: the pieces between newline characters.
pub open spec fn lines(s: Seq<char>) -> Seq<Seq<char>>
    decreases s.len(),
{
    if s.len() == 0 {
        seq![seq![]]
    } else {
        let prev = lines(s.drop_last());
        if s.last() == '\n' {
            prev.push(seq![])
        } else {
            prev.update(prev.len() - 1, prev.last().push(s.last()))
        }
    }
}

/// Every text has at least one line, maybe empty.
pub proof fn lemma_lines_nonempty(s: Seq<char>)
    ensures
        lines(s).len() >= 1,
    decreases s.len(),
{
    if s.len() > 0 {
        lemma_lines_nonempty(s.drop_last());
    }
}

/// One more character of `s` read into its lines.
pub proof fn lemma_lines_step(s: Seq<char>, i: int)
    requires
        0 <= i < s.len(),
    ensures
        lines(s.take(i + 1)) == if s[i] == '\n' {
            lines(s.take(i)).push(seq![])
        } else {
            let prev = lines(s.take(i));
            prev.update(prev.len() - 1, prev.last().push(s[i]))
        },
{
    assert(s.take(i + 1).drop_last() =~= s.take(i));
}

/// Text joined by a newline splits into the lines of each part.
pub proof fn lemma_lines_join(a: Seq<char>, b: Seq<char>)
    ensures
        lines(a + seq!['\n'] + b) == lines(a) + lines(b),
    decreases b.len(),
{
    let s = a + seq!['\n'] + b;
    if b.len() == 0 {
        assert(s.drop_last() =~= a);
        assert(lines(b) =~= seq![seq![]]);
        assert(lines(a).push(seq![]) =~= lines(a) + lines(b));
    } else {
        let b0 = b.drop_last();
        lemma_lines_join(a, b0);
        lemma_lines_nonempty(b0);
        assert(s.drop_last() =~= a + seq!['\n'] + b0);
        let prev = lines(a) + lines(b0);
        if b.last() == '\n' {
            assert(prev.push(seq![]) =~= lines(a) + lines(b0).push(seq![]));
        } else {
            let lb = lines(b0);
            assert(prev.last() == lb.last());
            assert(prev.update(prev.len() - 1, prev.last().push(b.last())) =~= lines(a) + lb.update(
                lb.len() - 1,
                lb.last().push(b.last()),
            ));
        }
    }
}

/// The set that holds `p`, if there is one.
pub open spec fn port_set(p: Option<u16>) -> Set<u16> {
    match p {
        Some(x) => set![x],
        None => Set::empty(),
    }
}

/// First index at or after `i` whose character is not whitespace, or the length.
pub open spec fn skip_space(s: Seq<char>, i: int) -> int
    decreases s.len() - i,
{
    if 0 <= i < s.len() && is_space(s[i]) {
        skip_space(s, i + 1)
    } else {
        i
    }
}

/// First index at or after `i` whose character is whitespace, or the length.
pub open spec fn skip_word(s: Seq<char>, i: int) -> int
    decreases s.len() - i,
{
    if 0 <= i < s.len() && !is_space(s[i]) {
        skip_word(s, i + 1)
    } else {
        i
    }
}

/// One past the last index in `[lo, j)` whose character is not whitespace, or `lo`.
pub open spec fn skip_space_back(s: Seq<char>, lo: int, j: int) -> int
    decreases j - lo,
{
    if lo < j <= s.len() && is_space(s[j - 1]) {
        skip_space_back(s, lo, j - 1)
    } else {
        j
    }
}

/// `s` without leading and trailing whitespace.
pub open spec fn trimmed(s: Seq<char>) -> Seq<char> {
    let a = skip_space(s, 0);
    s.subrange(a, skip_space_back(s, a, s.len() as int))
}

/// First index at or after `i` that holds `c`, or the length.
pub open spec fn find_char(s: Seq<char>, c: char, i: int) -> int
    decreases s.len() - i,
{
    if 0 <= i < s.len() && s[i] != c {
        find_char(s, c, i + 1)
    } else {
        i
    }
}

/// First index at or after `i` whose character is not a digit, or the length.
pub open spec fn skip_digits(s: Seq<char>, i: int) -> int
    decreases s.len() - i,
{
    if 0 <= i < s.len() && is_digit(s[i]) {
        skip_digits(s, i + 1)
    } else {
        i
    }
}

/// Start of the run of digits that ends at `j`.
pub open spec fn skip_digits_back(s: Seq<char>, j: int) -> int
    decreases j,
{
    if 0 < j <= s.len() && is_digit(s[j - 1]) {
        skip_digits_back(s, j - 1)
    } else {
        j
    }
}

/// Every character of `s` is an ASCII digit.
pub open spec fn all_digits(s: Seq<char>) -> bool {
    forall|i: int| 0 <= i < s.len() ==> is_digit(#[trigger] s[i])
}

/// The number that the decimal digits `s` write.
pub open spec fn decimal(s: Seq<char>) -> nat
    decreases s.len(),
{
    if s.len() == 0 {
        0
    } else {
        decimal(s.drop_last()) * 10 + digit_value(s.last())
    }
}

/// A non-empty run of ASCII digits whose value fits in 16 bits.
pub open spec fn digits_u16(s: Seq<char>) -> Option<u16> {
    if s.len() > 0 && all_digits(s) && decimal(s) <= u16::MAX {
        Some(decimal(s) as u16)
    } else {
        None
    }
}

/// What `u16::from_str` accepts: an optional `+`, then digits that fit in 16 bits.
pub open spec fn parse_u16(s: Seq<char>) -> Option<u16> {
    if s.len() > 0 && s[0] == '+' {
        digits_u16(s.drop_first())
    } else {
        digits_u16(s)
    }
}

/// The characters of `s`.
pub fn chars_of(s: &str) -> (r: Vec<char>)
    ensures
        r@ == s@,
{
    let mut v: Vec<char> = Vec::new();
    for c in it: s.chars()
        invariant
            v@ == it.seq().take(it.index() as int),
            it.seq() == s@,
    {
        v.push(c);
    }
    v
}

/// The characters of `v` from `a` up to, not including, `b`.
pub fn copy_range(v: &Vec<char>, a: usize, b: usize) -> (r: Vec<char>)
    requires
        a <= b <= v.len(),
    ensures
        r@ == v@.subrange(a as int, b as int),
{
    let mut r: Vec<char> = Vec::new();
    let mut i: usize = a;
    while i < b
        invariant
            a <= i <= b <= v.len(),
            r@ == v@.subrange(a as int, i as int),
        decreases b - i,
    {
        r.push(v[i]);
        i = i + 1;
        assert(r@ =~= v@.subrange(a as int, i as int));
    }
    r
}

/// Index form of `skip_space`.
pub fn skip_space_from(s: &Vec<char>, i: usize) -> (r: usize)
    requires
        i <= s.len(),
    ensures
        r as int == skip_space(s@, i as int),
        i <= r <= s.len(),
{
    let mut j: usize = i;
    while j < s.len() && is_space_char(s[j])
        invariant
            i <= j <= s.len(),
            skip_space(s@, j as int) == skip_space(s@, i as int),
        decreases s.len() - j,
    {
        j = j + 1;
    }
    j
}

/// Index form of `skip_word`.
pub fn skip_word_from(s: &Vec<char>, i: usize) -> (r: usize)
    requires
        i <= s.len(),
    ensures
        r as int == skip_word(s@, i as int),
        i <= r <= s.len(),
{
    let mut j: usize = i;
    while j < s.len() && !is_space_char(s[j])
        invariant
            i <= j <= s.len(),
            skip_word(s@, j as int) == skip_word(s@, i as int),
        decreases s.len() - j,
    {
        j = j + 1;
    }
    j
}

/// Index form of `skip_space_back`.
pub fn skip_space_back_from(s: &Vec<char>, lo: usize, j: usize) -> (r: usize)
    requires
        lo <= j <= s.len(),
    ensures
        r as int == skip_space_back(s@, lo as int, j as int),
        lo <= r <= j,
{
    let mut k: usize = j;
    while k > lo && is_space_char(s[k - 1])
        invariant
            lo <= k <= j <= s.len(),
            skip_space_back(s@, lo as int, k as int) == skip_space_back(s@, lo as int, j as int),
        decreases k,
    {
        k = k - 1;
    }
    k
}

/// `s` without leading and trailing whitespace.
pub fn trim_chars(s: &Vec<char>) -> (r: Vec<char>)
    ensures
        r@ == trimmed(s@),
{
    let a = skip_space_from(s, 0);
    let b = skip_space_back_from(s, a, s.len());
    copy_range(s, a, b)
}

/// The lines of `text`, as `lines` gives them.
pub fn split_lines(text: &str) -> (r: Vec<Vec<char>>)
    ensures
        r@.len() == lines(text@).len(),
        forall|k: int| 0 <= k < r@.len() ==> (#[trigger] r@[k])@ == lines(text@)[k],
{
    let chars = chars_of(text);
    let ghost s = chars@;
    let mut out: Vec<Vec<char>> = Vec::new();
    let mut start: usize = 0;
    let mut i: usize = 0;
    proof {
        assert(s.take(0) =~= seq![]);
        assert(s.subrange(0, 0) =~= seq![]);
    }
    while i < chars.len()
        invariant
            s == chars@,
            start <= i <= chars.len(),
            lines(s.take(i as int)).len() == out@.len() + 1,
            forall|k: int| 0 <= k < out@.len() ==> (#[trigger] out@[k])@ == lines(s.take(i as int))[k],
            lines(s.take(i as int)).last() == s.subrange(start as int, i as int),
        decreases chars.len() - i,
    {
        let ghost prev = lines(s.take(i as int));
        proof {
            lemma_lines_step(s, i as int);
        }
        if chars[i] == '\n' {
            let line = copy_range(&chars, start, i);
            out.push(line);
            proof {
                assert(s.subrange(i + 1, i + 1) =~= seq![]);
            }
            start = i + 1;
        } else {
            proof {
                assert(s.subrange(start as int, i + 1) =~= s.subrange(start as int, i as int).push(
                    s[i as int],
                ));
            }
        }
        i = i + 1;
    }
    let line = copy_range(&chars, start, chars.len());
    out.push(line);
    proof {
        assert(s.take(i as int) =~= s);
    }
    out
}

/// Index form of `skip_digits`.
pub fn skip_digits_from(s: &Vec<char>, i: usize) -> (r: usize)
    requires
        i <= s.len(),
    ensures
        r as int == skip_digits(s@, i as int),
        i <= r <= s.len(),
{
    let mut j: usize = i;
    while j < s.len() && (s[j] as u32) >= 0x30 && (s[j] as u32) <= 0x39
        invariant
            i <= j <= s.len(),
            skip_digits(s@, j as int) == skip_digits(s@, i as int),
        decreases s.len() - j,
    {
        j = j + 1;
    }
    j
}

/// Index form of `skip_digits_back`.
pub fn skip_digits_back_from(s: &Vec<char>, j: usize) -> (r: usize)
    requires
        j <= s.len(),
    ensures
        r as int == skip_digits_back(s@, j as int),
        r <= j,
{
    let mut k: usize = j;
    while k > 0 && (s[k - 1] as u32) >= 0x30 && (s[k - 1] as u32) <= 0x39
        invariant
            k <= j <= s.len(),
            skip_digits_back(s@, k as int) == skip_digits_back(s@, j as int),
        decreases k,
    {
        k = k - 1;
    }
    k
}

/// Index form of `find_char`.
pub fn find_char_from(s: &Vec<char>, c: char, i: usize) -> (r: usize)
    requires
        i <= s.len(),
    ensures
        r as int == find_char(s@, c, i as int),
        i <= r <= s.len(),
{
    let mut j: usize = i;
    while j < s.len() && s[j] != c
        invariant
            i <= j <= s.len(),
            find_char(s@, c, j as int) == find_char(s@, c, i as int),
        decreases s.len() - j,
    {
        j = j + 1;
    }
    j
}

/// Whether `s` lower-cases to the lower-case ASCII word `t`.
pub fn equals_folded_exec(s: &Vec<char>, t: &Vec<char>) -> (r: bool)
    ensures
        r == equals_folded(s@, t@),
{
    if s.len() != t.len() {
        return false;
    }
    let mut i: usize = 0;
    while i < s.len()
        invariant
            s.len() == t.len(),
            i <= s.len(),
            forall|k: int| 0 <= k < i ==> folds_to(#[trigger] s@[k], t@[k]),
        decreases s.len() - i,
    {
        let c = s[i] as u32;
        let l = t[i] as u32;
        if !(c == l || (0x61 <= l && l <= 0x7a && c == l - 0x20) || (l == 0x6b && c == 0x212a)) {
            return false;
        }
        assert(folds_to(s@[i as int], t@[i as int]));
        i = i + 1;
    }
    true
}

proof fn lemma_decimal_grows(s: Seq<char>, j: int)
    requires
        0 <= j <= s.len(),
    ensures
        decimal(s.take(j)) <= decimal(s),
    decreases s.len() - j,
{
    if j < s.len() {
        lemma_decimal_grows(s, j + 1);
        let t = s.take(j + 1);
        assert(t.drop_last() =~= s.take(j));
        assert(decimal(t) == decimal(t.drop_last()) * 10 + digit_value(t.last()));
    } else {
        assert(s.take(j) =~= s);
    }
}

/// The value of the digits `s[a..b]`, if they are all digits, non-empty and fit in 16 bits.
pub fn digits_u16_exec(s: &Vec<char>, a: usize, b: usize) -> (r: Option<u16>)
    requires
        a <= b <= s.len(),
    ensures
        r == digits_u16(s@.subrange(a as int, b as int)),
{
    let ghost d = s@.subrange(a as int, b as int);
    if a == b {
        return None;
    }
    let mut acc: u32 = 0;
    let mut i: usize = a;
    while i < b
        invariant
            a <= i <= b <= s.len(),
            d == s@.subrange(a as int, b as int),
            all_digits(d.take(i - a)),
            acc as nat == decimal(d.take(i - a)),
            acc <= u16::MAX,
        decreases b - i,
    {
        let c = s[i] as u32;
        if c < 0x30 || c > 0x39 {
            proof {
                assert(!is_digit(d[i - a]));
            }
            return None;
        }
        let ghost prev = d.take(i - a);
        acc = acc * 10 + (c - 0x30);
        i = i + 1;
        proof {
            assert(d.take(i - a).drop_last() =~= prev);
            assert(all_digits(d.take(i - a))) by {
                assert forall|k: int| 0 <= k < d.take(i - a).len() implies is_digit(
                    #[trigger] d.take(i - a)[k],
                ) by {
                    if k < prev.len() {
                        assert(d.take(i - a)[k] == prev[k]);
                    }
                }
            }
        }
        if acc > 0xffff {
            proof {
                lemma_decimal_grows(d, i - a);
            }
            return None;
        }
    }
    proof {
        assert(d.take(i - a) =~= d);
    }
    Some(acc as u16)
}

/// The value of `s[a..b]` as `u16::from_str` reads it.
pub fn parse_u16_exec(s: &Vec<char>, a: usize, b: usize) -> (r: Option<u16>)
    requires
        a <= b <= s.len(),
    ensures
        r == parse_u16(s@.subrange(a as int, b as int)),
{
    if a < b && s[a] == '+' {
        proof {
            assert(s@.subrange(a as int, b as int).drop_first() =~= s@.subrange(
                a + 1,
                b as int,
            ));
        }
        digits_u16_exec(s, a + 1, b)
    } else {
        digits_u16_exec(s, a, b)
    }
}

} // verus!
