use vstd::prelude::*;

use crate::text::{is_space, is_dec, is_alnum, is_var_char, is_space_char, is_alnum_char, is_var_char_exec, is_digit};

verus! {

/// The result of a parser that starts at a position of the input: the
/// position after what it read and the value it read; or a failure, after
/// which another alternative may be tried; or a panic, on text that no
/// parse accepts (such as an integer literal that does not fit), which ends
/// the whole parse.
pub enum PRes<T> {
    Done(int, T),
    Fail,
    Panic,
}

impl<T> PRes<T> {
    pub open spec fn is_panic(self) -> bool {
        self is Panic
    }
}

/// A parse error.
#[derive(Debug)]
pub struct ParseError;

/// Why a parser gave no value: the text does not match, or it is text on
/// which parsing panics.
#[derive(Debug)]
pub enum PErr {
    Fail,
    Panic,
}

/// `r` is what the spec result `p` describes: the same position and value,
/// a failure where `p` fails and a panic where `p` panics.
pub open spec fn pres_matches<T: DeepView>(r: Result<(usize, T), PErr>, p: PRes<T::V>) -> bool {
    match p {
        PRes::Done(j, v) => r matches Ok((k, x)) && k == j && x.deep_view() == v,
        PRes::Fail => r matches Err(PErr::Fail),
        PRes::Panic => r matches Err(PErr::Panic),
    }
}

/// The end of the longest run, from position `i`, of characters that satisfy
/// `p`.
pub open spec fn run_end(s: Seq<char>, i: int, p: spec_fn(char) -> bool) -> int
    decreases s.len() - i,
{
    if 0 <= i < s.len() && p(s[i]) {
        run_end(s, i + 1, p)
    } else {
        i
    }
}

/// The position after the white space that starts at `i`.
pub open spec fn sp_ws(s: Seq<char>, i: int) -> int {
    run_end(s, i, |c: char| is_space(c))
}

/// Whether the text `t` stands at position `i`.
pub open spec fn sp_tag(s: Seq<char>, i: int, t: Seq<char>) -> bool {
    0 <= i && i + t.len() <= s.len() && s.subrange(i, i + t.len()) == t
}

/// `t` with white space on both sides: the position after it, if it is there.
pub open spec fn sp_stag(s: Seq<char>, i: int, t: Seq<char>) -> Option<int> {
    let a = sp_ws(s, i);
    if sp_tag(s, a, t) {
        Some(sp_ws(s, a + t.len()))
    } else {
        None
    }
}

/// A run ends within the text; every character in it satisfies `p`, and the
/// one after it, if any, does not.
pub proof fn lemma_run_end(s: Seq<char>, i: int, p: spec_fn(char) -> bool)
    requires
        0 <= i <= s.len(),
    ensures
        i <= run_end(s, i, p) <= s.len(),
        forall|k: int| i <= k < run_end(s, i, p) ==> #[trigger] p(s[k]),
        run_end(s, i, p) < s.len() ==> !p(s[run_end(s, i, p)]),
    decreases s.len() - i,
{
    if i < s.len() && p(s[i]) {
        lemma_run_end(s, i + 1, p);
    }
}

/// Skips white space.
pub fn ws(s: &Vec<char>, i: usize) -> (r: usize)
    requires
        i <= s@.len(),
    ensures
        r == sp_ws(s@, i as int),
        i <= r <= s@.len(),
        s@.len() <= usize::MAX,
{
    let _n = s.len();
    let mut j = i;
    proof {
        lemma_run_end(s@, i as int, |c: char| is_space(c));
    }
    while j < s.len() && is_space_char(s[j])
        invariant
            i <= j <= s@.len(),
            run_end(s@, j as int, |c: char| is_space(c)) == run_end(s@, i as int, |c: char| is_space(c)),
        decreases s@.len() - j,
    {
        j = j + 1;
    }
    j
}

/// The end of a run of decimal digits.
pub fn digits_end(s: &Vec<char>, i: usize) -> (r: usize)
    requires
        i <= s@.len(),
    ensures
        r == run_end(s@, i as int, |c: char| is_dec(c)),
        i <= r <= s@.len(),
        s@.len() <= usize::MAX,
        forall|q: int| i <= q < r ==> is_dec(#[trigger] s@[q]),
{
    let _n = s.len();
    let mut j = i;
    proof {
        lemma_run_end(s@, i as int, |c: char| is_dec(c));
    }
    while j < s.len() && is_digit(s[j])
        invariant
            i <= j <= s@.len(),
            run_end(s@, j as int, |c: char| is_dec(c)) == run_end(s@, i as int, |c: char| is_dec(c)),
            forall|q: int| i <= q < j ==> is_dec(#[trigger] s@[q]),
        decreases s@.len() - j,
    {
        j = j + 1;
    }
    j
}

/// The end of a run of ASCII letters and digits.
pub fn alnum_end(s: &Vec<char>, i: usize) -> (r: usize)
    requires
        i <= s@.len(),
    ensures
        r == run_end(s@, i as int, |c: char| is_alnum(c)),
        i <= r <= s@.len(),
        s@.len() <= usize::MAX,
        forall|q: int| i <= q < r ==> is_alnum(#[trigger] s@[q]),
{
    let _n = s.len();
    let mut j = i;
    proof {
        lemma_run_end(s@, i as int, |c: char| is_alnum(c));
    }
    while j < s.len() && is_alnum_char(s[j])
        invariant
            i <= j <= s@.len(),
            run_end(s@, j as int, |c: char| is_alnum(c)) == run_end(s@, i as int, |c: char| is_alnum(c)),
            forall|q: int| i <= q < j ==> is_alnum(#[trigger] s@[q]),
        decreases s@.len() - j,
    {
        j = j + 1;
    }
    j
}

/// The end of a run of characters that may stand in a variable name.
pub fn var_end(s: &Vec<char>, i: usize) -> (r: usize)
    requires
        i <= s@.len(),
    ensures
        r == run_end(s@, i as int, |c: char| is_var_char(c)),
        i <= r <= s@.len(),
        s@.len() <= usize::MAX,
        forall|q: int| i <= q < r ==> is_var_char(#[trigger] s@[q]),
{
    let _n = s.len();
    let mut j = i;
    proof {
        lemma_run_end(s@, i as int, |c: char| is_var_char(c));
    }
    while j < s.len() && is_var_char_exec(s[j])
        invariant
            i <= j <= s@.len(),
            run_end(s@, j as int, |c: char| is_var_char(c)) == run_end(s@, i as int, |c: char| is_var_char(c)),
            forall|q: int| i <= q < j ==> is_var_char(#[trigger] s@[q]),
        decreases s@.len() - j,
    {
        j = j + 1;
    }
    j
}

/// Whether the text `t` stands at position `i`.
pub fn tag(s: &Vec<char>, i: usize, t: &[char]) -> (r: bool)
    requires
        i <= s@.len(),
    ensures
        r == sp_tag(s@, i as int, t@),
        s@.len() <= usize::MAX,
{
    let n = s.len();
    if t.len() > s.len() - i {
        return false;
    }
    let mut k: usize = 0;
    while k < t.len()
        invariant
            i + t@.len() <= s@.len(),
            s@.len() <= usize::MAX,
            k <= t@.len(),
            forall|m: int| 0 <= m < k ==> s@[i + m] == t@[m],
        decreases t@.len() - k,
    {
        if s[i + k] != t[k] {
            assert(s@.subrange(i as int, i + t@.len())[k as int] != t@[k as int]);
            return false;
        }
        k = k + 1;
    }
    assert(s@.subrange(i as int, i + t@.len()) =~= t@);
    true
}

/// `t` with white space on both sides.
pub fn stag(s: &Vec<char>, i: usize, t: &[char]) -> (r: Option<usize>)
    requires
        i <= s@.len(),
    ensures
        r is Some <==> sp_stag(s@, i as int, t@) is Some,
        r matches Some(j) ==> sp_stag(s@, i as int, t@) == Some(j as int),
        r matches Some(j) ==> i <= j <= s@.len() && j >= i + t@.len(),
{
    let n = s.len();
    let a = ws(s, i);
    if tag(s, a, t) {
        let b = ws(s, a + t.len());
        Some(b)
    } else {
        None
    }
}


/// Skipping white space twice is skipping it once.
pub proof fn lemma_ws_idem(s: Seq<char>, i: int)
    requires
        0 <= i <= s.len(),
    ensures
        sp_ws(s, sp_ws(s, i)) == sp_ws(s, i),
{
    lemma_run_end(s, i, |c: char| is_space(c));
}

} // verus!
