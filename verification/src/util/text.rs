//! Helpers on strings: comparison, concatenation and decimal numerals.
use vstd::prelude::*;

verus! {

/// What the strings of a list are.
pub open spec fn strings_view(s: Seq<String>) -> Seq<Seq<char>> {
    s.map_values(|x: String| x@)
}

/// Whether two string slices hold the same characters.
pub fn str_eq(a: &str, b: &str) -> (r: bool)
    ensures
        r == (a@ == b@),
{
    let x: String = a.to_owned();
    let y: String = b.to_owned();
    x == y
}

/// `a` followed by `b`.
pub fn concat2(a: &str, b: &str) -> (r: String)
    ensures
        r@ == a@ + b@,
{
    let mut s: String = a.to_owned();
    s.append(b);
    s
}

/// `a`, then `b`, then `c`.
pub fn concat3(a: &str, b: &str, c: &str) -> (r: String)
    ensures
        r@ == a@ + b@ + c@,
{
    let mut s: String = a.to_owned();
    s.append(b);
    s.append(c);
    s
}

/// The character of a decimal digit.
pub open spec fn digit_char(d: int) -> char {
    if d == 0 { '0' } else if d == 1 { '1' } else if d == 2 { '2' } else if d == 3 { '3' }
    else if d == 4 { '4' } else if d == 5 { '5' } else if d == 6 { '6' } else if d == 7 { '7' }
    else if d == 8 { '8' } else { '9' }
}

/// The decimal numeral of `n`, without leading zeros.
pub open spec fn decimal(n: nat) -> Seq<char>
    decreases n,
{
    if n < 10 {
        seq![digit_char(n as int)]
    } else {
        decimal(n / 10).push(digit_char((n % 10) as int))
    }
}

fn digit_str(d: u64) -> (r: &'static str)
    requires
        d < 10,
    ensures
        r@ == seq![digit_char(d as int)],
{
    proof {
        reveal_strlit("0");
        reveal_strlit("1");
        reveal_strlit("2");
        reveal_strlit("3");
        reveal_strlit("4");
        reveal_strlit("5");
        reveal_strlit("6");
        reveal_strlit("7");
        reveal_strlit("8");
        reveal_strlit("9");
    }
    if d == 0 { "0" } else if d == 1 { "1" } else if d == 2 { "2" } else if d == 3 { "3" }
    else if d == 4 { "4" } else if d == 5 { "5" } else if d == 6 { "6" } else if d == 7 { "7" }
    else if d == 8 { "8" } else { "9" }
}

/// The decimal numeral of `n`.
pub fn u64_to_text(n: u64) -> (r: String)
    ensures
        r@ == decimal(n as nat),
    decreases n,
{
    if n < 10 {
        digit_str(n).to_owned()
    } else {
        let mut head: String = u64_to_text(n / 10);
        head.append(digit_str(n % 10));
        assert(head@ =~= decimal((n / 10) as nat).push(digit_char((n % 10) as int)));
        head
    }
}

/// The characters of a string, one by one.
pub fn chars_of(s: &str) -> (r: Vec<char>)
    ensures
        r@ == s@,
{
    let mut out: Vec<char> = Vec::new();
    for c in it: s.chars()
        invariant
            it.seq() == s@,
            out@ == it.seq().take(it.index()),
    {
        out.push(c);
        assert(out@ =~= it.seq().take(it.index() + 1));
    }
    assert(out@ =~= s@);
    out
}

/// [`String::push`] appends one character at the end.
pub assume_specification[ String::push ](s: &mut String, c: char)
    ensures
        final(s)@ == old(s)@.push(c),
;

/// A character of white space.
pub open spec fn is_white(c: char) -> bool {
    let n = c as u32;
    ||| 0x9 <= n <= 0xd
    ||| n == 0x20
    ||| n == 0x85
    ||| n == 0xa0
    ||| n == 0x1680
    ||| 0x2000 <= n <= 0x200a
    ||| n == 0x2028
    ||| n == 0x2029
    ||| n == 0x202f
    ||| n == 0x205f
    ||| n == 0x3000
}

/// Whether a character is white space.
pub fn white(c: char) -> (r: bool)
    ensures
        r == is_white(c),
{
    let n: u32 = c as u32;
    (0x9 <= n && n <= 0xd) || n == 0x20 || n == 0x85 || n == 0xa0 || n == 0x1680 || (0x2000 <= n
        && n <= 0x200a) || n == 0x2028 || n == 0x2029 || n == 0x202f || n == 0x205f || n == 0x3000
}

/// A line of white space alone.
pub open spec fn is_blank(s: Seq<char>) -> bool {
    forall|i: int| 0 <= i < s.len() ==> is_white(#[trigger] s[i])
}

/// Whether a line is white space alone.
pub fn blank(s: &str) -> (r: bool)
    ensures
        r == is_blank(s@),
{
    let chars: Vec<char> = chars_of(s);
    let mut i: usize = 0;
    while i < chars.len()
        invariant
            i <= chars@.len(),
            chars@ == s@,
            forall|j: int| 0 <= j < i ==> is_white(#[trigger] s@[j]),
        decreases chars@.len() - i,
    {
        if !white(chars[i]) {
            assert(!is_white(s@[i as int]));
            return false;
        }
        i += 1;
    }
    true
}

/// Whether `s` begins with `p`.
pub fn starts_with(s: &str, p: &str) -> (r: bool)
    ensures
        r == p@.is_prefix_of(s@),
{
    let a: Vec<char> = chars_of(s);
    let b: Vec<char> = chars_of(p);
    if b.len() > a.len() {
        return false;
    }
    let mut i: usize = 0;
    while i < b.len()
        invariant
            i <= b@.len() <= a@.len(),
            a@ == s@,
            b@ == p@,
            forall|j: int| 0 <= j < i ==> #[trigger] a@[j] == b@[j],
        decreases b@.len() - i,
    {
        if a[i] != b[i] {
            assert(s@.subrange(0, p@.len() as int)[i as int] != p@[i as int]);
            return false;
        }
        i += 1;
    }
    assert(p@ =~= s@.subrange(0, p@.len() as int));
    true
}

/// A text without the white space at its front.
pub open spec fn trim_front(s: Seq<char>) -> Seq<char>
    decreases s.len(),
{
    if s.len() > 0 && is_white(s[0]) {
        trim_front(s.drop_first())
    } else {
        s
    }
}

/// A text without the white space at its end.
pub open spec fn trim_back(s: Seq<char>) -> Seq<char>
    decreases s.len(),
{
    if s.len() > 0 && is_white(s.last()) {
        trim_back(s.drop_last())
    } else {
        s
    }
}

/// A text without the white space at both ends.
pub open spec fn trimmed(s: Seq<char>) -> Seq<char> {
    trim_back(trim_front(s))
}

/// The text without the white space at both ends.
pub fn trim(s: &str) -> (r: String)
    ensures
        r@ == trimmed(s@),
{
    let chars: Vec<char> = chars_of(s);
    let ghost all = chars@;
    let mut from: usize = 0;
    assert(all.skip(0) =~= all);
    while from < chars.len() && white(chars[from])
        invariant
            from <= chars@.len(),
            chars@ == all,
            trim_front(all) == trim_front(all.skip(from as int)),
        decreases chars@.len() - from,
    {
        assert(all.skip(from as int).drop_first() =~= all.skip(from as int + 1));
        from += 1;
    }
    let ghost front = all.skip(from as int);
    assert(trim_front(all) == front);
    let mut to: usize = chars.len();
    assert(all.subrange(from as int, to as int) =~= front);
    while to > from && white(chars[to - 1])
        invariant
            from <= to <= chars@.len(),
            chars@ == all,
            trim_back(front) == trim_back(all.subrange(from as int, to as int)),
        decreases to,
    {
        assert(all.subrange(from as int, to as int).drop_last() =~= all.subrange(
            from as int,
            to as int - 1,
        ));
        to -= 1;
    }
    string_of(&chars, from, to)
}

/// The value of a decimal digit.
pub open spec fn digit_value(c: char) -> Option<int> {
    if '0' <= c && c <= '9' {
        Some(c as int - '0' as int)
    } else {
        None
    }
}

/// The value of a run of digits that fits `u64`, or why there is none: the first character
/// that is no digit or makes the number too large decides.
pub open spec fn digits(s: Seq<char>) -> Result<u64, Seq<char>>
    decreases s.len(),
{
    if s.len() == 0 {
        Ok(0)
    } else {
        match digits(s.drop_last()) {
            Ok(n) => match digit_value(s.last()) {
                Some(d) => if n * 10 + d <= u64::MAX {
                    Ok((n * 10 + d) as u64)
                } else {
                    Err("number too large to fit in target type"@)
                },
                None => Err("invalid digit found in string"@),
            },
            Err(e) => Err(e),
        }
    }
}

/// The number that a text gives: decimal digits, perhaps with a plus sign in front.
pub open spec fn number(s: Seq<char>) -> Result<u64, Seq<char>> {
    if s.len() == 0 {
        Err("cannot parse integer from empty string"@)
    } else if s[0] == '+' && s.len() > 1 {
        digits(s.drop_first())
    } else {
        digits(s)
    }
}

proof fn lemma_digits_error(s: Seq<char>, n: int, e: Seq<char>)
    requires
        0 <= n <= s.len(),
        digits(s.take(n)) == Err::<u64, Seq<char>>(e),
    ensures
        digits(s) == Err::<u64, Seq<char>>(e),
    decreases s.len() - n,
{
    if n == s.len() {
        assert(s.take(n) =~= s);
    } else {
        assert(s.take(n + 1).drop_last() =~= s.take(n));
        lemma_digits_error(s, n + 1, e);
    }
}

/// What became of reading a number.
pub open spec fn number_view(r: Result<u64, String>) -> Result<u64, Seq<char>> {
    match r {
        Ok(n) => Ok(n),
        Err(e) => Err(e@),
    }
}

/// Reads a number from its decimal digits.
pub fn parse_u64(s: &str) -> (r: Result<u64, String>)
    ensures
        number_view(r) == number(s@),
{
    let chars: Vec<char> = chars_of(s);
    if chars.len() == 0 {
        return Err("cannot parse integer from empty string".to_owned());
    }
    let start: usize = if chars[0] == '+' && chars.len() > 1 { 1 } else { 0 };
    let ghost ds = chars@.skip(start as int);
    assert(start == 1 ==> ds =~= chars@.drop_first());
    assert(start == 0 ==> ds =~= chars@);
    let mut n: u64 = 0;
    let mut i: usize = start;
    assert(ds.take(0) =~= Seq::<char>::empty());
    while i < chars.len()
        invariant
            start <= i <= chars@.len(),
            ds == chars@.skip(start as int),
            digits(ds.take(i - start)) == Ok::<u64, Seq<char>>(n),
            chars@ == s@,
            number(s@) == digits(ds),
        decreases chars@.len() - i,
    {
        let c: char = chars[i];
        let ghost t = ds.take(i - start + 1);
        assert(t.drop_last() =~= ds.take(i - start));
        assert(t.last() == c);
        if !('0' <= c && c <= '9') {
            let e: String = "invalid digit found in string".to_owned();
            proof {
                lemma_digits_error(ds, i - start + 1, e@);
            }
            return Err(e);
        }
        let d: u64 = (c as u32 - '0' as u32) as u64;
        if n > (u64::MAX - d) / 10 {
            let e: String = "number too large to fit in target type".to_owned();
            proof {
                assert(n * 10 + d > u64::MAX) by (nonlinear_arith)
                    requires
                        n > (u64::MAX - d) / 10,
                        d <= 9,
                ;
                lemma_digits_error(ds, i - start + 1, e@);
            }
            return Err(e);
        }
        assert(n * 10 + d <= u64::MAX) by (nonlinear_arith)
            requires
                n <= (u64::MAX - d) / 10,
                d <= 9,
        ;
        n = n * 10 + d;
        i += 1;
    }
    assert(ds.take(i - start) =~= ds);
    Ok(n)
}

/// The numeral of a number reads back as the number.
pub proof fn law_numeral_reads_back(n: u64)
    ensures
        number(decimal(n as nat)) == Ok::<u64, Seq<char>>(n),
{
    lemma_decimal_digits(n);
    lemma_decimal_start(n as nat);
}

proof fn lemma_decimal_start(n: nat)
    ensures
        decimal(n).len() > 0,
        decimal(n)[0] != '+',
    decreases n,
{
    if n >= 10 {
        lemma_decimal_start(n / 10);
    }
}

/// A numeral has no white space at its ends.
pub proof fn lemma_numeral_trimmed(n: nat)
    ensures
        trimmed(decimal(n)) == decimal(n),
{
    lemma_decimal_chars(n);
    let s = decimal(n);
    assert(!is_white(s[0]));
    assert(!is_white(s.last()));
}

proof fn lemma_decimal_chars(n: nat)
    ensures
        decimal(n).len() > 0,
        !is_white(decimal(n)[0]),
        !is_white(decimal(n).last()),
    decreases n,
{
    if n >= 10 {
        lemma_decimal_chars(n / 10);
    }
}

proof fn lemma_decimal_digits(n: u64)
    ensures
        digits(decimal(n as nat)) == Ok::<u64, Seq<char>>(n),
    decreases n,
{
    if n < 10 {
        let s = decimal(n as nat);
        assert(s.drop_last() =~= Seq::<char>::empty());
        assert(digits(s.drop_last()) == Ok::<u64, Seq<char>>(0));
        assert(digit_value(s.last()) == Some(n as int));
    } else {
        lemma_decimal_digits(n / 10);
        let s = decimal(n as nat);
        assert(s.drop_last() =~= decimal((n / 10) as nat));
        assert(digit_value(s.last()) == Some((n % 10) as int));
    }
}

/// The string of `chars[from..to]`.
pub fn string_of(chars: &Vec<char>, from: usize, to: usize) -> (r: String)
    requires
        from <= to <= chars@.len(),
    ensures
        r@ == chars@.subrange(from as int, to as int),
{
    let mut s: String = String::new();
    let mut i: usize = from;
    while i < to
        invariant
            from <= i <= to <= chars@.len(),
            s@ == chars@.subrange(from as int, i as int),
        decreases to - i,
    {
        s.push(chars[i]);
        i += 1;
        assert(s@ =~= chars@.subrange(from as int, i as int));
    }
    s
}

/// The text `p` stands in `s` at position `i`.
pub open spec fn occurs_at(s: Seq<char>, p: Seq<char>, i: int) -> bool {
    0 <= i && i + p.len() <= s.len() && s.subrange(i, i + p.len()) == p
}

/// `i` is the first position of `p` in `s`.
pub open spec fn first_occurrence(s: Seq<char>, p: Seq<char>, i: int) -> bool {
    occurs_at(s, p, i) && forall|j: int| 0 <= j < i ==> !#[trigger] occurs_at(s, p, j)
}

/// The first position of `p` in `s`, if it stands there at all.
pub open spec fn find(s: Seq<char>, p: Seq<char>) -> Option<int> {
    if exists|i: int| first_occurrence(s, p, i) {
        Some(choose|i: int| first_occurrence(s, p, i))
    } else {
        None
    }
}

/// There is only one first position.
pub proof fn lemma_find(s: Seq<char>, p: Seq<char>, i: int)
    requires
        first_occurrence(s, p, i),
    ensures
        find(s, p) == Some(i),
{
    let k = choose|k: int| first_occurrence(s, p, k);
    if k < i {
        assert(!occurs_at(s, p, k));
    } else if i < k {
        assert(!occurs_at(s, p, i));
    }
}

/// A text without a position of `p` has no first one.
pub proof fn lemma_find_none(s: Seq<char>, p: Seq<char>)
    requires
        forall|j: int| 0 <= j <= s.len() ==> !#[trigger] occurs_at(s, p, j),
    ensures
        find(s, p) is None,
{
    if exists|i: int| first_occurrence(s, p, i) {
        let i = choose|i: int| first_occurrence(s, p, i);
        assert(occurs_at(s, p, i));
    }
}

/// Whether `p` stands in `s` at position `i`.
fn matches_at(s: &Vec<char>, p: &Vec<char>, i: usize) -> (r: bool)
    requires
        i <= s@.len(),
    ensures
        r == occurs_at(s@, p@, i as int),
{
    if p.len() > s.len() - i {
        return false;
    }
    let n: usize = s.len();
    let mut k: usize = 0;
    while k < p.len()
        invariant
            n == s@.len(),
            i + p@.len() <= n,
            k <= p@.len(),
            forall|j: int| 0 <= j < k ==> s@[i + j] == #[trigger] p@[j],
        decreases p@.len() - k,
    {
        if s[i + k] != p[k] {
            assert(s@.subrange(i as int, i + p@.len())[k as int] != p@[k as int]);
            return false;
        }
        k += 1;
    }
    assert(s@.subrange(i as int, i + p@.len()) =~= p@);
    true
}

/// The first position of `p` in `s` from `from` on, counted from there.
pub fn find_in(s: &Vec<char>, p: &str, from: usize) -> (r: Option<usize>)
    requires
        from <= s@.len(),
    ensures
        r matches Some(i) ==> from + i + p@.len() <= s@.len() && find(s@.skip(from as int), p@)
            == Some(i as int),
        r is None ==> find(s@.skip(from as int), p@) is None,
{
    let pat: Vec<char> = chars_of(p);
    let ghost rest = s@.skip(from as int);
    let n: usize = s.len();
    let mut i: usize = from;
    loop
        invariant
            from <= i <= n,
            n == s@.len(),
            pat@ == p@,
            rest == s@.skip(from as int),
            forall|j: int| 0 <= j < i - from ==> !#[trigger] occurs_at(rest, p@, j),
        decreases n - i,
    {
        let here: bool = matches_at(s, &pat, i);
        proof {
            let k = i - from;
            if k + p@.len() <= rest.len() {
                assert(rest.subrange(k, k + p@.len()) =~= s@.subrange(i as int, i + p@.len()));
            }
            assert(here == occurs_at(rest, p@, k));
        }
        if here {
            proof {
                lemma_find(rest, p@, i - from);
            }
            return Some(i - from);
        }
        if i == n {
            proof {
                lemma_find_none(rest, p@);
            }
            return None;
        }
        i += 1;
    }
}

/// The last position of a character in a text.
pub open spec fn last_of(s: Seq<char>, c: char) -> Option<int>
    decreases s.len(),
{
    if s.len() == 0 {
        None
    } else if s.last() == c {
        Some(s.len() - 1)
    } else {
        last_of(s.drop_last(), c)
    }
}

/// The first position of a character in a text.
pub open spec fn first_of(s: Seq<char>, c: char) -> Option<int>
    decreases s.len(),
{
    if s.len() == 0 {
        None
    } else if s[0] == c {
        Some(0)
    } else {
        match first_of(s.drop_first(), c) {
            Some(i) => Some(i + 1),
            None => None,
        }
    }
}

/// The last position of a character.
pub fn rfind_char(s: &Vec<char>, c: char) -> (r: Option<usize>)
    ensures
        r matches Some(i) ==> i < s@.len() && last_of(s@, c) == Some(i as int),
        r is None ==> last_of(s@, c) is None,
{
    let mut i: usize = s.len();
    assert(s@.take(i as int) =~= s@);
    while i > 0
        invariant
            i <= s@.len(),
            last_of(s@, c) == last_of(s@.take(i as int), c),
        decreases i,
    {
        assert(s@.take(i as int).drop_last() =~= s@.take(i - 1));
        i -= 1;
        if s[i] == c {
            return Some(i);
        }
    }
    None
}

/// The first position of a character.
pub fn find_char(s: &Vec<char>, c: char) -> (r: Option<usize>)
    ensures
        r matches Some(i) ==> i < s@.len() && first_of(s@, c) == Some(i as int),
        r is None ==> first_of(s@, c) is None,
{
    let mut i: usize = 0;
    assert(s@.skip(0) =~= s@);
    while i < s.len()
        invariant
            i <= s@.len(),
            first_of(s@, c) == match first_of(s@.skip(i as int), c) {
                Some(k) => Some(k + i),
                None => None::<int>,
            },
        decreases s@.len() - i,
    {
        assert(s@.skip(i as int).drop_first() =~= s@.skip(i + 1));
        if s[i] == c {
            return Some(i);
        }
        i += 1;
    }
    None
}

/// A text without a character at its front.
pub open spec fn strip_front(s: Seq<char>, c: char) -> Seq<char>
    decreases s.len(),
{
    if s.len() > 0 && s[0] == c {
        strip_front(s.drop_first(), c)
    } else {
        s
    }
}

/// A text without a character at its back.
pub open spec fn strip_back(s: Seq<char>, c: char) -> Seq<char>
    decreases s.len(),
{
    if s.len() > 0 && s.last() == c {
        strip_back(s.drop_last(), c)
    } else {
        s
    }
}

/// A text without a character at either end.
pub fn strip_char(s: &str, c: char) -> (r: String)
    ensures
        r@ == strip_back(strip_front(s@, c), c),
{
    let cs: Vec<char> = chars_of(s);
    let n: usize = cs.len();
    let mut i: usize = 0;
    assert(s@.skip(0) =~= s@);
    while i < n && cs[i] == c
        invariant
            i <= n,
            n == cs@.len(),
            cs@ == s@,
            strip_front(s@, c) == strip_front(s@.skip(i as int), c),
        decreases n - i,
    {
        assert(s@.skip(i as int).drop_first() =~= s@.skip(i + 1));
        i += 1;
    }
    let ghost front = strip_front(s@, c);
    assert(front =~= s@.skip(i as int));
    let mut j: usize = n;
    assert(s@.subrange(i as int, j as int) =~= front);
    while j > i && cs[j - 1] == c
        invariant
            i <= j <= n,
            n == cs@.len(),
            cs@ == s@,
            strip_back(front, c) == strip_back(s@.subrange(i as int, j as int), c),
        decreases j,
    {
        assert(s@.subrange(i as int, j as int).drop_last() =~= s@.subrange(i as int, j - 1));
        j -= 1;
    }
    string_of(&cs, i, j)
}

/// The character of a hexadecimal digit.
pub open spec fn hex_char(d: int) -> char {
    if d < 10 {
        digit_char(d)
    } else if d == 10 {
        'a'
    } else if d == 11 {
        'b'
    } else if d == 12 {
        'c'
    } else if d == 13 {
        'd'
    } else if d == 14 {
        'e'
    } else {
        'f'
    }
}

/// The value of a hexadecimal digit.
pub open spec fn hex_digit(c: char) -> int {
    if '0' <= c <= '9' {
        c as int - '0' as int
    } else {
        c as int - 'a' as int + 10
    }
}

/// The hexadecimal numeral of `n`, without leading zeros.
pub open spec fn hex(n: nat) -> Seq<char>
    decreases n,
{
    if n < 16 {
        seq![hex_char(n as int)]
    } else {
        hex(n / 16).push(hex_char((n % 16) as int))
    }
}

/// So many zeros.
pub open spec fn zeros(k: nat) -> Seq<char> {
    Seq::new(k, |i: int| '0')
}

/// The hexadecimal numeral of `n`, with zeros in front up to a width.
pub open spec fn hex_padded(n: nat, width: nat) -> Seq<char> {
    if hex(n).len() < width {
        zeros((width - hex(n).len()) as nat) + hex(n)
    } else {
        hex(n)
    }
}

/// The number that a hexadecimal numeral stands for.
pub open spec fn hex_value(s: Seq<char>) -> nat
    decreases s.len(),
{
    if s.len() == 0 {
        0
    } else {
        (16 * hex_value(s.drop_last()) + hex_digit(s.last())) as nat
    }
}

/// A hexadecimal numeral, padded or not, stands for its number.
pub proof fn law_hex_reads_back(n: nat, width: nat)
    ensures
        hex_value(hex_padded(n, width)) == n,
{
    lemma_hex_value(n);
    if hex(n).len() < width {
        lemma_zeros_value((width - hex(n).len()) as nat, hex(n));
    }
}

proof fn lemma_hex_value(n: nat)
    ensures
        hex_value(hex(n)) == n,
        hex(n).len() > 0,
    decreases n,
{
    let s = hex(n);
    reveal_with_fuel(hex_value, 2);
    if n < 16 {
        assert(s.drop_last() =~= Seq::<char>::empty());
        assert(s.last() == hex_char(n as int));
    } else {
        lemma_hex_value(n / 16);
        assert(s.drop_last() =~= hex(n / 16));
        assert(s.last() == hex_char((n % 16) as int));
    }
}

proof fn lemma_zeros_value(k: nat, s: Seq<char>)
    ensures
        hex_value(zeros(k) + s) == hex_value(s),
    decreases s.len(), k,
{
    let t = zeros(k) + s;
    if s.len() > 0 {
        assert(t.drop_last() =~= zeros(k) + s.drop_last());
        lemma_zeros_value(k, s.drop_last());
    } else if k > 0 {
        assert(t.drop_last() =~= zeros((k - 1) as nat) + s);
        lemma_zeros_value((k - 1) as nat, s);
    }
}

/// A number below a power of the base has so many digits at most.
pub proof fn lemma_hex_len(n: nat, digits: nat, bound: nat)
    requires
        n < bound,
        bound == vstd::arithmetic::power::pow(16, digits),
        digits > 0,
    ensures
        hex(n).len() <= digits,
    decreases digits,
{
    vstd::arithmetic::power::lemma_pow1(16);
    if n >= 16 {
        assert(digits > 1) by {
            if digits == 1 {
                assert(bound == 16);
            }
        }
        let less = (digits - 1) as nat;
        reveal(vstd::arithmetic::power::pow);
        let b = vstd::arithmetic::power::pow(16, less);
        assert(bound == 16 * b);
        lemma_hex_len(n / 16, less, b as nat);
    }
}

fn hex_digit_char(d: u64) -> (r: char)
    requires
        d < 16,
    ensures
        r == hex_char(d as int),
{
    if d == 0 { '0' } else if d == 1 { '1' } else if d == 2 { '2' } else if d == 3 { '3' }
    else if d == 4 { '4' } else if d == 5 { '5' } else if d == 6 { '6' } else if d == 7 { '7' }
    else if d == 8 { '8' } else if d == 9 { '9' } else if d == 10 { 'a' } else if d == 11 { 'b' }
    else if d == 12 { 'c' } else if d == 13 { 'd' } else if d == 14 { 'e' } else { 'f' }
}

fn hex_chars(n: u64) -> (r: Vec<char>)
    ensures
        r@ == hex(n as nat),
    decreases n,
{
    let mut out: Vec<char> = if n < 16 {
        Vec::new()
    } else {
        hex_chars(n / 16)
    };
    out.push(hex_digit_char(n % 16));
    assert(out@ =~= hex(n as nat));
    out
}

/// The hexadecimal numeral of `n`, with zeros in front up to a width.
pub fn u64_to_hex(n: u64, width: usize) -> (r: String)
    ensures
        r@ == hex_padded(n as nat, width as nat),
{
    let cs: Vec<char> = hex_chars(n);
    let len: usize = cs.len();
    let mut s: String = String::new();
    let mut k: usize = len;
    while k < width
        invariant
            len <= k,
            k <= width || k == len,
            s@ == zeros((k - len) as nat),
        decreases width - k,
    {
        s.push('0');
        k += 1;
        assert(s@ =~= zeros((k - len) as nat));
    }
    let digits: String = string_of(&cs, 0, len);
    assert(cs@.subrange(0, len as int) =~= cs@);
    let r: String = concat2(s.as_str(), digits.as_str());
    assert(r@ =~= hex_padded(n as nat, width as nat));
    r
}

/// The parts of a text between separators. There is always at least one.
pub open spec fn split(s: Seq<char>, c: char) -> Seq<Seq<char>>
    decreases s.len(),
{
    match last_of(s, c) {
        Some(i) => if 0 <= i < s.len() {
            split(s.take(i), c).push(s.skip(i + 1))
        } else {
            seq![s]
        },
        None => seq![s],
    }
}

proof fn lemma_last_of_push(s: Seq<char>, c: char, d: char)
    ensures
        d == c ==> last_of(s.push(d), c) == Some(s.len() as int),
        d != c ==> last_of(s.push(d), c) == last_of(s, c),
{
    assert(s.push(d).drop_last() =~= s);
}

proof fn lemma_last_of_range(s: Seq<char>, c: char)
    ensures
        last_of(s, c) matches Some(i) ==> 0 <= i < s.len() && s[i] == c,
    decreases s.len(),
{
    if s.len() > 0 && s.last() != c {
        lemma_last_of_range(s.drop_last(), c);
    }
}

/// One more character: a separator begins a new part, any other belongs to the last part.
proof fn lemma_split_push(s: Seq<char>, c: char, d: char)
    ensures
        split(s, c).len() > 0,
        d == c ==> split(s.push(d), c) == split(s, c).push(Seq::empty()),
        d != c ==> split(s.push(d), c) == split(s, c).drop_last().push(split(s, c).last().push(d)),
{
    let t = s.push(d);
    lemma_last_of_push(s, c, d);
    lemma_last_of_range(s, c);
    lemma_last_of_range(t, c);
    if d == c {
        assert(t.take(s.len() as int) =~= s);
        assert(t.skip(s.len() as int + 1) =~= Seq::<char>::empty());
    } else {
        match last_of(s, c) {
            Some(i) => {
                assert(t.take(i) =~= s.take(i));
                assert(t.skip(i + 1) =~= s.skip(i + 1).push(d));
                assert(split(s, c).drop_last() =~= split(s.take(i), c));
            },
            None => {
                assert(split(s, c).drop_last() =~= Seq::<Seq<char>>::empty());
                assert(split(t, c) =~= seq![t]);
            },
        }
    }
}

/// The parts of a text between separators.
pub fn split_on(s: &str, c: char) -> (r: Vec<String>)
    ensures
        strings_view(r@) == split(s@, c),
{
    let cs: Vec<char> = chars_of(s);
    let mut out: Vec<String> = Vec::new();
    let mut part: String = String::new();
    let mut i: usize = 0;
    proof {
        assert(s@.take(0) =~= Seq::<char>::empty());
        assert(split(s@.take(0), c) =~= seq![Seq::<char>::empty()]);
        assert(part@ =~= Seq::<char>::empty());
        assert(strings_view(out@).push(part@) =~= split(s@.take(0), c));
    }
    while i < cs.len()
        invariant
            i <= cs@.len(),
            cs@ == s@,
            strings_view(out@).push(part@) == split(s@.take(i as int), c),
        decreases cs@.len() - i,
    {
        let ghost before = strings_view(out@);
        proof {
            lemma_split_push(s@.take(i as int), c, s@[i as int]);
            assert(s@.take(i + 1) =~= s@.take(i as int).push(s@[i as int]));
            assert(before.push(part@).drop_last() =~= before);
        }
        if cs[i] == c {
            let ghost p = part@;
            out.push(part);
            part = String::new();
            assert(part@ =~= Seq::<char>::empty());
            assert(strings_view(out@) =~= before.push(p));
        } else {
            part.push(cs[i]);
        }
        i += 1;
    }
    assert(s@.take(i as int) =~= s@);
    let ghost before = strings_view(out@);
    out.push(part);
    assert(strings_view(out@) =~= before.push(part@));
    out
}

/// The lower-case form of a letter of ASCII; any other character stays.
pub open spec fn lower(c: char) -> char {
    if 'A' <= c <= 'Z' {
        (c as u8 + 32) as u8 as char
    } else {
        c
    }
}

fn lower_char(c: char) -> (r: char)
    ensures
        r == lower(c),
{
    if 'A' <= c && c <= 'Z' {
        let b: u8 = c as u8;
        (b + 32) as char
    } else {
        c
    }
}

/// A text with the letters of ASCII in lower case.
pub open spec fn lowered(s: Seq<char>) -> Seq<char> {
    s.map_values(|c: char| lower(c))
}

/// A text with the letters of ASCII in lower case.
pub fn to_lower(s: &str) -> (r: String)
    ensures
        r@ == lowered(s@),
{
    let cs: Vec<char> = chars_of(s);
    let mut out: String = String::new();
    let mut i: usize = 0;
    assert(out@ =~= lowered(s@.take(0)));
    while i < cs.len()
        invariant
            i <= cs@.len(),
            cs@ == s@,
            out@ == lowered(s@.take(i as int)),
        decreases cs@.len() - i,
    {
        let ghost before = out@;
        out.push(lower_char(cs[i]));
        assert(out@ =~= lowered(s@.take(i + 1)));
        i += 1;
    }
    assert(s@.take(i as int) =~= s@);
    out
}

/// Whether `p` stands somewhere in `s`.
pub fn contains(s: &str, p: &str) -> (r: bool)
    ensures
        r == (find(s@, p@) is Some),
{
    let cs: Vec<char> = chars_of(s);
    assert(cs@.skip(0) =~= s@);
    match find_in(&cs, p, 0) {
        Some(_) => true,
        None => false,
    }
}

/// Trimming takes white space from both ends, all of it, and nothing else.
pub proof fn law_trimmed_ends(s: Seq<char>)
    ensures
        exists|i: int, j: int|
            0 <= i <= j <= s.len() && trimmed(s) == #[trigger] s.subrange(i, j) && is_blank(
                s.take(i),
            ) && is_blank(s.skip(j)),
        trimmed(s).len() > 0 ==> !is_white(trimmed(s)[0]) && !is_white(trimmed(s).last()),
        trimmed(s).len() == 0 <==> is_blank(s),
{
    let f = trim_front(s);
    let i = lemma_trim_front(s);
    let n = lemma_trim_back(f);
    let j = i + n;
    assert(trimmed(s) =~= s.subrange(i, j));
    assert forall|k: int| 0 <= k < s.skip(j).len() implies is_white(#[trigger] s.skip(j)[k]) by {
        assert(f.skip(n)[k] == s.skip(j)[k]);
    }
    if trimmed(s).len() > 0 {
        assert(trimmed(s)[0] == f[0]);
        if is_blank(s) {
            assert(is_white(s[i]));
        }
    } else {
        assert forall|k: int| 0 <= k < s.len() implies is_white(#[trigger] s[k]) by {
            if k < i {
                assert(s.take(i)[k] == s[k]);
            } else {
                assert(s.skip(j)[k - j] == s[k]);
            }
        }
    }
}

proof fn lemma_trim_front(s: Seq<char>) -> (i: int)
    ensures
        0 <= i <= s.len(),
        trim_front(s) == s.skip(i),
        is_blank(s.take(i)),
        trim_front(s).len() > 0 ==> !is_white(trim_front(s)[0]),
    decreases s.len(),
{
    if s.len() > 0 && is_white(s[0]) {
        let t = s.drop_first();
        let i = lemma_trim_front(t);
        assert(t.skip(i) =~= s.skip(i + 1));
        assert forall|k: int| 0 <= k < i + 1 implies is_white(#[trigger] s.take(i + 1)[k]) by {
            if k > 0 {
                assert(t.take(i)[k - 1] == s[k]);
            }
        }
        i + 1
    } else {
        assert(s.skip(0) =~= s);
        0
    }
}

proof fn lemma_trim_back(s: Seq<char>) -> (n: int)
    ensures
        0 <= n <= s.len(),
        trim_back(s) == s.take(n),
        is_blank(s.skip(n)),
        n > 0 ==> !is_white(s[n - 1]),
    decreases s.len(),
{
    if s.len() > 0 && is_white(s.last()) {
        let t = s.drop_last();
        let n = lemma_trim_back(t);
        assert(t.take(n) =~= s.take(n));
        assert forall|k: int| 0 <= k < s.skip(n).len() implies is_white(#[trigger] s.skip(n)[k]) by {
            if k < s.len() - 1 - n {
                assert(t.skip(n)[k] == s[n + k]);
            }
        }
        n
    } else {
        assert(s.take(s.len() as int) =~= s);
        s.len() as int
    }
}

/// A position that is found first or last holds the character, and none before it or behind it does;
/// where none is found, the character is not there at all.
pub proof fn law_positions_of_char(s: Seq<char>, c: char)
    ensures
        first_of(s, c) matches Some(i) ==> (0 <= i < s.len() && s[i] == c && forall|j: int|
            0 <= j < i ==> #[trigger] s[j] != c),
        last_of(s, c) matches Some(i) ==> (0 <= i < s.len() && s[i] == c && forall|j: int|
            i < j < s.len() ==> #[trigger] s[j] != c),
        first_of(s, c) is None <==> !s.contains(c),
        last_of(s, c) is None <==> !s.contains(c),
    decreases s.len(),
{
    if s.len() > 0 {
        let t = s.drop_first();
        let u = s.drop_last();
        law_positions_of_char(t, c);
        law_positions_of_char(u, c);
        if let Some(i) = first_of(s, c) {
            assert forall|j: int| 0 <= j < i implies #[trigger] s[j] != c by {
                if j > 0 {
                    assert(t[j - 1] == s[j]);
                }
            }
        }
        if let Some(i) = last_of(s, c) {
            assert forall|j: int| i < j < s.len() implies #[trigger] s[j] != c by {
                if j < s.len() - 1 {
                    assert(u[j] == s[j]);
                }
            }
        }
        if first_of(s, c) is None {
            assert forall|j: int| 0 <= j < s.len() implies #[trigger] s[j] != c by {
                if j > 0 {
                    assert(t[j - 1] == s[j]);
                }
            }
        }
        if last_of(s, c) is None {
            assert forall|j: int| 0 <= j < s.len() implies #[trigger] s[j] != c by {
                if j < s.len() - 1 {
                    assert(u[j] == s[j]);
                }
            }
        }
    }
}

/// Texts with a character between them.
pub open spec fn joined(parts: Seq<Seq<char>>, c: char) -> Seq<char>
    decreases parts.len(),
{
    if parts.len() == 0 {
        Seq::empty()
    } else if parts.len() == 1 {
        parts[0]
    } else {
        joined(parts.drop_last(), c).push(c) + parts.last()
    }
}

/// The parts of a text make up the text again, and none of them holds what it was split at.
pub proof fn law_split_can_be_joined(s: Seq<char>, c: char)
    ensures
        split(s, c).len() > 0,
        joined(split(s, c), c) == s,
        forall|k: int| 0 <= k < split(s, c).len() ==> !(#[trigger] split(s, c)[k]).contains(c),
    decreases s.len(),
{
    law_positions_of_char(s, c);
    if let Some(i) = last_of(s, c) {
        let t = s.take(i);
        let r = s.skip(i + 1);
        law_split_can_be_joined(t, c);
        let p = split(t, c);
        assert(split(s, c) == p.push(r));
        assert(p.push(r).drop_last() =~= p);
        assert(t.push(c) + r =~= s);
        assert(!r.contains(c)) by {
            if r.contains(c) {
                let k = choose|k: int| 0 <= k < r.len() && r[k] == c;
                assert(s[i + 1 + k] == c);
            }
        }
    }
}

/// Letters of ASCII in upper case become the same letters in lower case; nothing else changes.
pub proof fn law_lowered_letters(s: Seq<char>, i: int)
    requires
        0 <= i < s.len(),
    ensures
        lowered(s).len() == s.len(),
        s[i] == 'A' ==> lowered(s)[i] == 'a',
        s[i] == 'Z' ==> lowered(s)[i] == 'z',
        'A' <= s[i] <= 'Z' ==> lowered(s)[i] as int == s[i] as int + 32,
        !('A' <= s[i] <= 'Z') ==> lowered(s)[i] == s[i],
{
    let c = s[i];
    if 'A' <= c <= 'Z' {
        let n = c as u8;
        assert(n as int == c as int);
    }
}

} // verus!
