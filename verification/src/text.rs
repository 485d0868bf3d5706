use vstd::prelude::*;

verus! {

/// The characters that the parser treats as white space.
pub open spec fn is_space(c: char) -> bool {
    c == ' ' || c == '\t' || c == '\r' || c == '\n'
}

/// ASCII decimal digits.
pub open spec fn is_dec(c: char) -> bool {
    '0' <= c && c <= '9'
}

/// ASCII letters and digits.
pub open spec fn is_alnum(c: char) -> bool {
    ('a' <= c && c <= 'z') || ('A' <= c && c <= 'Z') || is_dec(c)
}

/// The characters that may stand in a variable name: all but white space
/// (other than tab), brackets, parentheses and the semicolon.
pub open spec fn is_var_char(c: char) -> bool {
    !(c == ' ' || c == '\r' || c == '\n' || c == '{' || c == '}' || c == '[' || c == ']' || c
        == '(' || c == ')' || c == ';')
}

/// Whether `c` is a decimal digit.
pub fn is_digit(c: char) -> (r: bool)
    ensures
        r == is_dec(c),
{
    '0' <= c && c <= '9'
}

/// 1 for 0, and 0 for every other value.
pub open spec fn toggled(a: i32) -> i32 {
    if a == 0 {
        1
    } else {
        0
    }
}

/// Flips 0 to 1 and everything else to 0.
pub fn toggle(a: i32) -> (r: i32)
    ensures
        r == toggled(a),
{
    if a == 0 {
        1
    } else {
        0
    }
}

/// Toggling gives 0 or 1; toggling twice gives back 0 and 1, and gives 1
/// for any other value.
pub proof fn law_toggle_twice(a: i32)
    ensures
        toggled(a) == 0 || toggled(a) == 1,
        (a == 0 || a == 1) ==> toggled(toggled(a)) == a,
        !(a == 0 || a == 1) ==> toggled(toggled(a)) == 1,
{
}

/// Whether `c` is white space for the parser.
pub fn is_space_char(c: char) -> (r: bool)
    ensures
        r == is_space(c),
{
    c == ' ' || c == '\t' || c == '\r' || c == '\n'
}

/// Whether `c` is an ASCII letter or digit.
pub fn is_alnum_char(c: char) -> (r: bool)
    ensures
        r == is_alnum(c),
{
    ('a' <= c && c <= 'z') || ('A' <= c && c <= 'Z') || ('0' <= c && c <= '9')
}

/// Whether `c` may stand in a variable name.
pub fn is_var_char_exec(c: char) -> (r: bool)
    ensures
        r == is_var_char(c),
{
    !(c == ' ' || c == '\r' || c == '\n' || c == '{' || c == '}' || c == '[' || c == ']' || c
        == '(' || c == ')' || c == ';')
}

/// Appends one character to a string: `String::push` of std.
#[verifier::external_body]
pub(crate) fn string_push(s: &mut String, c: char)
    ensures
        final(s)@ == old(s)@.push(c),
{
    s.push(c);
}

/// What `format!("{:?}", s)` gives for a string `s`: the string in double
/// quotes, with the escapes of `char::escape_debug`.  Its result depends on
/// `s` alone.
pub uninterp spec fn str_debug(s: Seq<char>) -> Seq<char>;

/// The `Debug` text of a string, made by std's `Debug` for `String`.  The
/// contract says only that it is a function of the string's characters.
#[verifier::external_body]
pub(crate) fn debug_string(s: &String) -> (r: String)
    ensures
        r@ == str_debug(s@),
{
    format!("{:?}", s)
}

/// The characters of `s`, in order.
pub fn chars_of(s: &str) -> (v: Vec<char>)
    ensures
        v@ == s@,
{
    let mut v: Vec<char> = Vec::new();
    for c in it: s.chars()
        invariant
            it.seq() == s@,
            v@ == it.seq().take(it.index() as int),
    {
        v.push(c);
    }
    v
}

/// A string that holds `v[lo..hi]`.
pub fn string_of(v: &Vec<char>, lo: usize, hi: usize) -> (r: String)
    requires
        lo <= hi <= v@.len(),
    ensures
        r@ == v@.subrange(lo as int, hi as int),
{
    let mut r = String::new();
    let mut i = lo;
    while i < hi
        invariant
            lo <= i <= hi <= v@.len(),
            r@ == v@.subrange(lo as int, i as int),
        decreases hi - i,
    {
        string_push(&mut r, v[i]);
        assert(v@.subrange(lo as int, i + 1) =~= v@.subrange(lo as int, i as int).push(v@[i as int]));
        i = i + 1;
    }
    r
}

/// `a` followed by `b`.
pub fn concat(a: &String, b: &String) -> (r: String)
    ensures
        r@ == a@ + b@,
{
    let mut r = String::new();
    let mut i: usize = 0;
    let av = chars_of(a.as_str());
    let bv = chars_of(b.as_str());
    while i < av.len()
        invariant
            i <= av@.len(),
            av@ == a@,
            r@ == av@.subrange(0, i as int),
        decreases av@.len() - i,
    {
        string_push(&mut r, av[i]);
        assert(av@.subrange(0, i + 1) =~= av@.subrange(0, i as int).push(av@[i as int]));
        i = i + 1;
    }
    assert(av@.subrange(0, av@.len() as int) =~= av@);
    let mut j: usize = 0;
    while j < bv.len()
        invariant
            j <= bv@.len(),
            bv@ == b@,
            av@ == a@,
            r@ == a@ + bv@.subrange(0, j as int),
        decreases bv@.len() - j,
    {
        string_push(&mut r, bv[j]);
        assert(bv@.subrange(0, j + 1) =~= bv@.subrange(0, j as int).push(bv@[j as int]));
        assert(a@ + bv@.subrange(0, j + 1) =~= (a@ + bv@.subrange(0, j as int)).push(bv@[j as int]));
        j = j + 1;
    }
    assert(bv@.subrange(0, bv@.len() as int) =~= bv@);
    r
}

/// A string that holds the characters of the literal `s`.
pub fn lit(s: &str) -> (r: String)
    ensures
        r@ == s@,
{
    let v = chars_of(s);
    string_of(&v, 0, v.len())
}

/// The digit character for `d < 10`.
pub open spec fn digit_char(d: nat) -> char {
    if d == 0 {
        '0'
    } else if d == 1 {
        '1'
    } else if d == 2 {
        '2'
    } else if d == 3 {
        '3'
    } else if d == 4 {
        '4'
    } else if d == 5 {
        '5'
    } else if d == 6 {
        '6'
    } else if d == 7 {
        '7'
    } else if d == 8 {
        '8'
    } else {
        '9'
    }
}

/// The decimal numeral of `n`, without leading zeros.
pub open spec fn dec(n: nat) -> Seq<char>
    decreases n,
{
    if n < 10 {
        seq![digit_char(n)]
    } else {
        dec(n / 10).push(digit_char(n % 10))
    }
}

/// The decimal numeral of an integer, with a minus sign when negative.
pub open spec fn int_dec(i: int) -> Seq<char> {
    if i < 0 {
        seq!['-'] + dec((-i) as nat)
    } else {
        dec(i as nat)
    }
}

fn digit_of(d: u64) -> (c: char)
    requires
        d < 10,
    ensures
        c == digit_char(d as nat),
{
    if d == 0 {
        '0'
    } else if d == 1 {
        '1'
    } else if d == 2 {
        '2'
    } else if d == 3 {
        '3'
    } else if d == 4 {
        '4'
    } else if d == 5 {
        '5'
    } else if d == 6 {
        '6'
    } else if d == 7 {
        '7'
    } else if d == 8 {
        '8'
    } else {
        '9'
    }
}

fn push_dec(s: &mut String, n: u64)
    ensures
        final(s)@ == old(s)@ + dec(n as nat),
    decreases n,
{
    if n < 10 {
        string_push(s, digit_of(n));
        assert(old(s)@.push(digit_char(n as nat)) =~= old(s)@ + seq![digit_char(n as nat)]);
    } else {
        push_dec(s, n / 10);
        string_push(s, digit_of(n % 10));
        assert(dec(n as nat) == dec((n / 10) as nat).push(digit_char((n % 10) as nat)));
        assert((old(s)@ + dec((n / 10) as nat)).push(digit_char((n % 10) as nat)) =~= old(s)@
            + dec(n as nat));
    }
}

/// The decimal numeral of `n`, as `{:?}` prints a `usize`.
pub fn usize_dec(n: usize) -> (r: String)
    ensures
        r@ == dec(n as nat),
{
    let mut r = String::new();
    push_dec(&mut r, n as u64);
    assert(r@ =~= dec(n as nat));
    r
}

/// The decimal numeral of `i`, as `{:?}` prints an `i32`.
pub fn i32_dec(i: i32) -> (r: String)
    ensures
        r@ == int_dec(i as int),
{
    let mut r = String::new();
    if i < 0 {
        string_push(&mut r, '-');
        let m: i64 = -(i as i64);
        push_dec(&mut r, m as u64);
        assert(r@ =~= int_dec(i as int));
    } else {
        push_dec(&mut r, i as u64);
        assert(r@ =~= int_dec(i as int));
    }
    r
}

} // verus!
