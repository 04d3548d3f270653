use vstd::prelude::*;

verus! {

pub open spec fn is_space_char(c: char) -> bool {
    c == ' ' || c == '\t'
}

pub open spec fn is_digit_char(c: char) -> bool {
    '0' <= c && c <= '9'
}

pub open spec fn is_alpha_char(c: char) -> bool {
    ('a' <= c && c <= 'z') || ('A' <= c && c <= 'Z')
}

pub open spec fn is_alnum_char(c: char) -> bool {
    is_alpha_char(c) || is_digit_char(c)
}

/// End of the longest run of characters satisfying `p` that starts at `i`.
pub open spec fn run_end(s: Seq<char>, i: int, p: spec_fn(char) -> bool) -> int
    decreases s.len() - i,
{
    if 0 <= i < s.len() && p(s[i]) {
        run_end(s, i + 1, p)
    } else {
        i
    }
}

pub proof fn lemma_run_end(s: Seq<char>, i: int, p: spec_fn(char) -> bool)
    requires
        0 <= i <= s.len(),
    ensures
        i <= run_end(s, i, p) <= s.len(),
        forall|k: int| i <= k < run_end(s, i, p) ==> p(s[k]),
        run_end(s, i, p) < s.len() ==> !p(s[run_end(s, i, p)]),
    decreases s.len() - i,
{
    if i < s.len() && p(s[i]) {
        lemma_run_end(s, i + 1, p);
    }
}

/// A maximal run is determined by its bounds: if every character in `[i, j)`
/// satisfies `p` and the run cannot be extended past `j`, then `j` is the end.
pub proof fn lemma_run_end_unique(s: Seq<char>, i: int, j: int, p: spec_fn(char) -> bool)
    requires
        0 <= i <= j <= s.len(),
        forall|k: int| i <= k < j ==> p(s[k]),
        j < s.len() ==> !p(s[j]),
    ensures
        run_end(s, i, p) == j,
    decreases j - i,
{
    if i < j {
        lemma_run_end_unique(s, i + 1, j, p);
    }
}

pub open spec fn space_pred() -> spec_fn(char) -> bool {
    |c: char| is_space_char(c)
}

pub open spec fn digit_pred() -> spec_fn(char) -> bool {
    |c: char| is_digit_char(c)
}

pub open spec fn alpha_pred() -> spec_fn(char) -> bool {
    |c: char| is_alpha_char(c)
}

pub open spec fn alnum_pred() -> spec_fn(char) -> bool {
    |c: char| is_alnum_char(c)
}

/// End of the run of space characters starting at `pos`.
pub fn scan_spaces(s: &str, pos: usize) -> (r: usize)
    requires
        pos <= s@.len(),
    ensures
        r == run_end(s@, pos as int, space_pred()),
        pos <= r <= s@.len(),
{
    let n = s.unicode_len();
    let mut i = pos;
    loop
        invariant_except_break
            pos <= i <= n,
            n == s@.len(),
            forall|k: int| pos <= k < i ==> space_pred()(s@[k]),
        ensures
            pos <= i <= n,
            n == s@.len(),
            forall|k: int| pos <= k < i ==> space_pred()(s@[k]),
            i == n || !space_pred()(s@[i as int]),
        decreases n - i,
    {
        if i >= n {
            break;
        }
        let c = s.get_char(i);
        if !(c == ' ' || c == '\t') {
            break;
        }
        i = i + 1;
    }
    proof {
        lemma_run_end_unique(s@, pos as int, i as int, space_pred());
    }
    i
}

/// End of the run of decimal digits starting at `pos`.
pub fn scan_digits(s: &str, pos: usize) -> (r: usize)
    requires
        pos <= s@.len(),
    ensures
        r == run_end(s@, pos as int, digit_pred()),
        pos <= r <= s@.len(),
{
    let n = s.unicode_len();
    let mut i = pos;
    loop
        invariant_except_break
            pos <= i <= n,
            n == s@.len(),
            forall|k: int| pos <= k < i ==> digit_pred()(s@[k]),
        ensures
            pos <= i <= n,
            n == s@.len(),
            forall|k: int| pos <= k < i ==> digit_pred()(s@[k]),
            i == n || !digit_pred()(s@[i as int]),
        decreases n - i,
    {
        if i >= n {
            break;
        }
        let c = s.get_char(i);
        if !('0' <= c && c <= '9') {
            break;
        }
        i = i + 1;
    }
    proof {
        lemma_run_end_unique(s@, pos as int, i as int, digit_pred());
    }
    i
}

/// End of the run of ASCII letters starting at `pos`.
pub fn scan_alpha(s: &str, pos: usize) -> (r: usize)
    requires
        pos <= s@.len(),
    ensures
        r == run_end(s@, pos as int, alpha_pred()),
        pos <= r <= s@.len(),
{
    let n = s.unicode_len();
    let mut i = pos;
    loop
        invariant_except_break
            pos <= i <= n,
            n == s@.len(),
            forall|k: int| pos <= k < i ==> alpha_pred()(s@[k]),
        ensures
            pos <= i <= n,
            n == s@.len(),
            forall|k: int| pos <= k < i ==> alpha_pred()(s@[k]),
            i == n || !alpha_pred()(s@[i as int]),
        decreases n - i,
    {
        if i >= n {
            break;
        }
        let c = s.get_char(i);
        if !(('a' <= c && c <= 'z') || ('A' <= c && c <= 'Z')) {
            break;
        }
        i = i + 1;
    }
    proof {
        lemma_run_end_unique(s@, pos as int, i as int, alpha_pred());
    }
    i
}

/// End of the run of ASCII letters and digits starting at `pos`.
pub fn scan_alnum(s: &str, pos: usize) -> (r: usize)
    requires
        pos <= s@.len(),
    ensures
        r == run_end(s@, pos as int, alnum_pred()),
        pos <= r <= s@.len(),
{
    let n = s.unicode_len();
    let mut i = pos;
    loop
        invariant_except_break
            pos <= i <= n,
            n == s@.len(),
            forall|k: int| pos <= k < i ==> alnum_pred()(s@[k]),
        ensures
            pos <= i <= n,
            n == s@.len(),
            forall|k: int| pos <= k < i ==> alnum_pred()(s@[k]),
            i == n || !alnum_pred()(s@[i as int]),
        decreases n - i,
    {
        if i >= n {
            break;
        }
        let c = s.get_char(i);
        if !(('a' <= c && c <= 'z') || ('A' <= c && c <= 'Z') || ('0' <= c && c <= '9')) {
            break;
        }
        i = i + 1;
    }
    proof {
        lemma_run_end_unique(s@, pos as int, i as int, alnum_pred());
    }
    i
}

/// The literal `t` occurs in `s` at position `i`.
pub open spec fn tag_matches(s: Seq<char>, i: int, t: Seq<char>) -> bool {
    i + t.len() <= s.len() && s.subrange(i, i + t.len()) == t
}

/// Whether the characters of `t` stand in `s` at `pos`.
pub fn match_tag(s: &str, pos: usize, t: &str) -> (r: bool)
    requires
        pos <= s@.len(),
    ensures
        r == tag_matches(s@, pos as int, t@),
{
    let n = s.unicode_len();
    let m = t.unicode_len();
    if m > n - pos {
        return false;
    }
    let mut j: usize = 0;
    while j < m
        invariant
            0 <= j <= m,
            m == t@.len(),
            n == s@.len(),
            pos + m <= n,
            forall|k: int| 0 <= k < j ==> s@[pos + k] == t@[k],
        decreases m - j,
    {
        let a = s.get_char(pos + j);
        let b = t.get_char(j);
        if a != b {
            proof {
                assert(s@.subrange(pos as int, pos + m as int)[j as int] != t@[j as int]);
            }
            return false;
        }
        j = j + 1;
    }
    proof {
        assert(s@.subrange(pos as int, pos + m as int) =~= t@);
    }
    true
}

/// Whether two strings hold the same characters.
pub fn str_eq(a: &str, b: &str) -> (r: bool)
    ensures
        r == (a@ == b@),
{
    let la = a.unicode_len();
    let lb = b.unicode_len();
    if la != lb {
        return false;
    }
    let r = match_tag(a, 0, b);
    proof {
        assert(a@.subrange(0, lb as int) =~= a@);
    }
    r
}

pub open spec fn digit_of(c: char) -> int {
    c as u32 - '0' as u32
}

/// Value of a sequence of decimal digits, most significant first.
pub open spec fn digits_val(s: Seq<char>) -> int
    decreases s.len(),
{
    if s.len() == 0 {
        0
    } else {
        digits_val(s.drop_last()) * 10 + digit_of(s.last())
    }
}

pub proof fn lemma_digits_val_nonneg(s: Seq<char>)
    requires
        forall|k: int| 0 <= k < s.len() ==> is_digit_char(s[k]),
    ensures
        digits_val(s) >= 0,
    decreases s.len(),
{
    if s.len() > 0 {
        lemma_digits_val_nonneg(s.drop_last());
        assert(is_digit_char(s.last()));
    }
}

/// Reading one more digit multiplies the value by ten and adds the digit.
pub proof fn lemma_digits_val_step(s: Seq<char>, i: int, m: int)
    requires
        0 <= i <= m < s.len(),
    ensures
        digits_val(s.subrange(i, m + 1)) == digits_val(s.subrange(i, m)) * 10 + digit_of(s[m]),
{
    assert(s.subrange(i, m + 1).drop_last() =~= s.subrange(i, m));
    assert(s.subrange(i, m + 1).last() == s[m]);
}

/// A prefix of a digit run is worth no more than the whole run.
pub proof fn lemma_digits_val_prefix(s: Seq<char>, i: int, m: int, j: int)
    requires
        0 <= i <= m <= j <= s.len(),
        forall|k: int| i <= k < j ==> is_digit_char(s[k]),
    ensures
        digits_val(s.subrange(i, m)) <= digits_val(s.subrange(i, j)),
    decreases j - m,
{
    if m < j {
        lemma_digits_val_step(s, i, m);
        assert(forall|k: int| 0 <= k < s.subrange(i, m).len() ==> is_digit_char(
            s.subrange(i, m)[k],
        ));
        lemma_digits_val_nonneg(s.subrange(i, m));
        assert(is_digit_char(s[m]));
        assert(digits_val(s.subrange(i, m + 1)) >= digits_val(s.subrange(i, m)));
        lemma_digits_val_prefix(s, i, m + 1, j);
    }
}

} // verus!
