//! Character and string utilities shared by the classifier, the range
//! resolver and the response builder: case-insensitive matching, decimal
//! parsing and rendering, and whitespace trimming, each with an exact
//! specification over `Seq<char>`.
use vstd::prelude::*;

verus! {

/// An ASCII decimal digit.
pub open spec fn is_digit_char(c: char) -> bool {
    '0' <= c && c <= '9'
}

/// Numeric value of an ASCII decimal digit.
pub open spec fn digit_val(c: char) -> int {
    c as u32 - 48
}

/// ASCII whitespace, the characters removed by trimming.
pub open spec fn is_space_char(c: char) -> bool {
    c == ' ' || c == '\t' || c == '\n' || c == '\r'
}

/// `c` equals the lower-case letter `l`, ignoring ASCII case.
pub open spec fn char_eq_ci(c: char, l: char) -> bool {
    c == l || ('A' <= c && c <= 'Z' && c as u32 + 32 == l as u32)
}

/// The word `w` (written in lower case) occurs at position `i` of `s`,
/// ignoring ASCII case.
pub open spec fn word_at_ci(s: Seq<char>, i: int, w: Seq<char>) -> bool {
    &&& 0 <= i
    &&& i + w.len() <= s.len()
    &&& forall|j: int| 0 <= j < w.len() ==> char_eq_ci(s[i + j], #[trigger] w[j])
}

/// Position of the first occurrence, at or after `i`, of a character that
/// equals `l` ignoring ASCII case.
pub open spec fn find_char_ci_from(s: Seq<char>, l: char, i: int) -> Option<int>
    decreases s.len() - i,
{
    if i < 0 || i >= s.len() {
        None
    } else if char_eq_ci(s[i], l) {
        Some(i)
    } else {
        find_char_ci_from(s, l, i + 1)
    }
}

/// Position of the first occurrence, at or after `i`, of the lower-case word
/// `w`, ignoring ASCII case.
pub open spec fn find_word_ci_from(s: Seq<char>, w: Seq<char>, i: int) -> Option<int>
    decreases s.len() + 1 - i,
{
    if i < 0 || i + w.len() > s.len() {
        None
    } else if word_at_ci(s, i, w) {
        Some(i)
    } else {
        find_word_ci_from(s, w, i + 1)
    }
}

/// The digit characters of `s`, in order.
pub open spec fn digits_of(s: Seq<char>) -> Seq<char>
    decreases s.len(),
{
    if s.len() == 0 {
        Seq::empty()
    } else if is_digit_char(s.last()) {
        digits_of(s.drop_last()) + seq![s.last()]
    } else {
        digits_of(s.drop_last())
    }
}

/// Value of a digit string read as a decimal number.
pub open spec fn digits_val(s: Seq<char>) -> int
    decreases s.len(),
{
    if s.len() == 0 {
        0
    } else {
        digits_val(s.drop_last()) * 10 + digit_val(s.last())
    }
}

/// All characters of `s` are digits.
pub open spec fn all_digits(s: Seq<char>) -> bool {
    forall|i: int| 0 <= i < s.len() ==> is_digit_char(#[trigger] s[i])
}

/// The digit character for a value below ten.
pub open spec fn digit_char(d: int) -> char {
    seq!['0', '1', '2', '3', '4', '5', '6', '7', '8', '9'][d]
}

/// Decimal rendering of a natural number, most significant digit first,
/// without leading zeroes (a single `'0'` for zero).
pub open spec fn dec_str(n: nat) -> Seq<char>
    decreases n,
{
    if n < 10 {
        seq![digit_char(n as int)]
    } else {
        dec_str(n / 10) + seq![digit_char((n % 10) as int)]
    }
}

/// `s` without leading whitespace.
pub open spec fn trim_start_spec(s: Seq<char>) -> Seq<char>
    decreases s.len(),
{
    if s.len() > 0 && is_space_char(s[0]) {
        trim_start_spec(s.drop_first())
    } else {
        s
    }
}

/// `s` without trailing whitespace.
pub open spec fn trim_end_spec(s: Seq<char>) -> Seq<char>
    decreases s.len(),
{
    if s.len() > 0 && is_space_char(s.last()) {
        trim_end_spec(s.drop_last())
    } else {
        s
    }
}

/// `s` without leading and trailing whitespace.
pub open spec fn trim_spec(s: Seq<char>) -> Seq<char> {
    trim_end_spec(trim_start_spec(s))
}

/// Whether `c` is an ASCII decimal digit.
pub fn digit_check(c: char) -> (r: bool)
    ensures
        r == is_digit_char(c),
{
    '0' <= c && c <= '9'
}

/// Numeric value of a digit character.
pub fn digit_value(c: char) -> (d: u32)
    requires
        is_digit_char(c),
    ensures
        d == digit_val(c),
{
    c as u32 - 48
}

/// Whether `c` equals the lower-case letter `l`, ignoring ASCII case.
pub fn char_check_ci(c: char, l: char) -> (r: bool)
    ensures
        r == char_eq_ci(c, l),
{
    c == l || ('A' <= c && c <= 'Z' && c as u32 + 32 == l as u32)
}

/// First position at or after `from` where a character equals `l`, ignoring
/// ASCII case.
pub fn find_char_ci(s: &str, l: char, from: usize) -> (r: Option<usize>)
    ensures
        match r {
            Some(i) => from <= i < s@.len() && char_eq_ci(s@[i as int], l) && find_char_ci_from(
                s@,
                l,
                from as int,
            ) == Some(i as int),
            None => find_char_ci_from(s@, l, from as int) is None,
        },
{
    let n = s.unicode_len();
    let mut i = from;
    while i < n
        invariant
            from <= i,
            n == s@.len(),
            find_char_ci_from(s@, l, from as int) == find_char_ci_from(s@, l, i as int),
        decreases n - i,
    {
        if char_check_ci(s.get_char(i), l) {
            return Some(i);
        }
        i += 1;
    }
    None
}

/// Whether the lower-case word `w` occurs at position `i` of `s`, ignoring
/// ASCII case.
pub fn word_check_at_ci(s: &str, i: usize, w: &str) -> (r: bool)
    requires
        i + w@.len() <= s@.len(),
    ensures
        r == word_at_ci(s@, i as int, w@),
{
    let n = s.unicode_len();
    let m = w.unicode_len();
    let mut j: usize = 0;
    while j < m
        invariant
            0 <= j <= m,
            n == s@.len(),
            m == w@.len(),
            i + m <= n,
            forall|k: int| 0 <= k < j ==> char_eq_ci(s@[i + k], #[trigger] w@[k]),
        decreases m - j,
    {
        if !char_check_ci(s.get_char(i + j), w.get_char(j)) {
            return false;
        }
        j += 1;
    }
    true
}

/// First position at or after `from` where the lower-case word `w` occurs in
/// `s`, ignoring ASCII case.
pub fn find_word_ci(s: &str, w: &str, from: usize) -> (r: Option<usize>)
    ensures
        match r {
            Some(i) => from <= i && i + w@.len() <= s@.len() && word_at_ci(s@, i as int, w@)
                && find_word_ci_from(s@, w@, from as int) == Some(i as int),
            None => find_word_ci_from(s@, w@, from as int) is None,
        },
{
    let n = s.unicode_len();
    let m = w.unicode_len();
    if m > n {
        return None;
    }
    let mut i = from;
    while i <= n - m
        invariant
            from <= i,
            m <= n,
            n == s@.len(),
            m == w@.len(),
            find_word_ci_from(s@, w@, from as int) == find_word_ci_from(s@, w@, i as int),
        decreases n - i,
    {
        if word_check_at_ci(s, i, w) {
            return Some(i);
        }
        i += 1;
    }
    None
}

/// The word `w` occurs at position `i` of `s`, exact case.
pub open spec fn word_at(s: Seq<char>, i: int, w: Seq<char>) -> bool {
    &&& 0 <= i
    &&& i + w.len() <= s.len()
    &&& forall|j: int| 0 <= j < w.len() ==> s[i + j] == #[trigger] w[j]
}

/// Position of the first occurrence, at or after `i`, of the word `w`,
/// exact case.
pub open spec fn find_word_from(s: Seq<char>, w: Seq<char>, i: int) -> Option<int>
    decreases s.len() + 1 - i,
{
    if i < 0 || i + w.len() > s.len() {
        None
    } else if word_at(s, i, w) {
        Some(i)
    } else {
        find_word_from(s, w, i + 1)
    }
}

/// Whether the word `w` occurs at position `i` of `s`, exact case.
pub fn word_check_at(s: &str, i: usize, w: &str) -> (r: bool)
    requires
        i + w@.len() <= s@.len(),
    ensures
        r == word_at(s@, i as int, w@),
{
    let n = s.unicode_len();
    let m = w.unicode_len();
    let mut j: usize = 0;
    while j < m
        invariant
            0 <= j <= m,
            n == s@.len(),
            m == w@.len(),
            i + m <= n,
            forall|k: int| 0 <= k < j ==> s@[i + k] == #[trigger] w@[k],
        decreases m - j,
    {
        if s.get_char(i + j) != w.get_char(j) {
            return false;
        }
        j += 1;
    }
    true
}

/// First position at or after `from` where the word `w` occurs in `s`,
/// exact case.
pub fn find_word_at(s: &str, w: &str, from: usize) -> (r: Option<usize>)
    ensures
        match r {
            Some(i) => from <= i && i + w@.len() <= s@.len() && word_at(s@, i as int, w@)
                && find_word_from(s@, w@, from as int) == Some(i as int),
            None => find_word_from(s@, w@, from as int) is None,
        },
{
    let n = s.unicode_len();
    let m = w.unicode_len();
    if m > n {
        return None;
    }
    let mut i = from;
    while i <= n - m
        invariant
            from <= i,
            m <= n,
            n == s@.len(),
            m == w@.len(),
            find_word_from(s@, w@, from as int) == find_word_from(s@, w@, i as int),
        decreases n - i,
    {
        if word_check_at(s, i, w) {
            return Some(i);
        }
        i += 1;
    }
    None
}

/// Position of the first occurrence of `c` at or after `i`, exact case.
pub open spec fn find_char_from(s: Seq<char>, c: char, i: int) -> Option<int>
    decreases s.len() - i,
{
    if i < 0 || i >= s.len() {
        None
    } else if s[i] == c {
        Some(i)
    } else {
        find_char_from(s, c, i + 1)
    }
}

/// End of the run of digit characters that starts at `i`: the first position
/// at or after `i` that is out of range or holds a non-digit.
pub open spec fn digit_run_end(s: Seq<char>, i: int) -> int
    decreases s.len() - i,
{
    if i < 0 || i >= s.len() || !is_digit_char(s[i]) {
        i
    } else {
        digit_run_end(s, i + 1)
    }
}

/// First position of `c` in `s` at or after `from`, exact case.
pub fn find_char_at(s: &str, c: char, from: usize) -> (r: Option<usize>)
    ensures
        match r {
            Some(i) => from <= i < s@.len() && s@[i as int] == c && find_char_from(
                s@,
                c,
                from as int,
            ) == Some(i as int),
            None => find_char_from(s@, c, from as int) is None,
        },
{
    let n = s.unicode_len();
    let mut i = from;
    while i < n
        invariant
            from <= i,
            n == s@.len(),
            find_char_from(s@, c, from as int) == find_char_from(s@, c, i as int),
        decreases n - i,
    {
        if s.get_char(i) == c {
            return Some(i);
        }
        i += 1;
    }
    None
}

/// Whether `p` is a prefix of `s`, exact case.
pub fn prefix_check(s: &str, p: &str) -> (r: bool)
    ensures
        r == (p@.len() <= s@.len() && s@.subrange(0, p@.len() as int) == p@),
{
    let n = s.unicode_len();
    let m = p.unicode_len();
    if m > n {
        return false;
    }
    let mut j: usize = 0;
    while j < m
        invariant
            0 <= j <= m <= n,
            n == s@.len(),
            m == p@.len(),
            forall|k: int| 0 <= k < j ==> s@[k] == p@[k],
        decreases m - j,
    {
        if s.get_char(j) != p.get_char(j) {
            assert(s@.subrange(0, m as int) != p@) by {
                assert(s@.subrange(0, m as int)[j as int] != p@[j as int]);
            }
            return false;
        }
        j += 1;
    }
    assert(s@.subrange(0, m as int) =~= p@);
    true
}

/// Whether two string slices hold the same characters.
pub fn str_eq_str(a: &str, b: &str) -> (r: bool)
    ensures
        r == (a@ == b@),
{
    let n = a.unicode_len();
    let m = b.unicode_len();
    if n != m {
        return false;
    }
    let mut i: usize = 0;
    while i < n
        invariant
            0 <= i <= n,
            n == a@.len(),
            n == b@.len(),
            forall|k: int| 0 <= k < i ==> a@[k] == b@[k],
        decreases n - i,
    {
        if a.get_char(i) != b.get_char(i) {
            assert(a@ != b@) by {
                assert(a@[i as int] != b@[i as int]);
            }
            return false;
        }
        i += 1;
    }
    assert(a@ =~= b@);
    true
}

/// All digit characters have non-negative value.
pub proof fn lemma_digits_val_nonneg(s: Seq<char>)
    requires
        all_digits(s),
    ensures
        digits_val(s) >= 0,
    decreases s.len(),
{
    if s.len() > 0 {
        assert(all_digits(s.drop_last())) by {
            assert(forall|i: int|
                0 <= i < s.drop_last().len() ==> #[trigger] s.drop_last()[i] == s[i]);
        }
        lemma_digits_val_nonneg(s.drop_last());
    }
}

/// Extending a digit string to the right never lowers its value.
pub proof fn lemma_digits_val_concat_ge(a: Seq<char>, b: Seq<char>)
    requires
        digits_val(a) >= 0,
        all_digits(b),
    ensures
        digits_val(a + b) >= digits_val(a),
    decreases b.len(),
{
    if b.len() == 0 {
        assert(a + b =~= a);
    } else {
        assert(all_digits(b.drop_last())) by {
            assert(forall|i: int|
                0 <= i < b.drop_last().len() ==> #[trigger] b.drop_last()[i] == b[i]);
        }
        lemma_digits_val_concat_ge(a, b.drop_last());
        assert((a + b).drop_last() =~= a + b.drop_last());
        assert((a + b).last() == b.last());
    }
}

/// The digit characters of a concatenation are the concatenations of the
/// digit characters.
pub proof fn lemma_digits_of_concat(a: Seq<char>, b: Seq<char>)
    ensures
        digits_of(a + b) == digits_of(a) + digits_of(b),
    decreases b.len(),
{
    if b.len() == 0 {
        assert(a + b =~= a);
        assert(digits_of(a) + digits_of(b) =~= digits_of(a));
    } else {
        lemma_digits_of_concat(a, b.drop_last());
        assert((a + b).drop_last() =~= a + b.drop_last());
        assert((a + b).last() == b.last());
        if is_digit_char(b.last()) {
            assert(digits_of(a) + digits_of(b) =~= (digits_of(a) + digits_of(b.drop_last()))
                + seq![b.last()]);
        }
    }
}

/// Every character of `digits_of(s)` is a digit.
pub proof fn lemma_digits_of_all_digits(s: Seq<char>)
    ensures
        all_digits(digits_of(s)),
    decreases s.len(),
{
    if s.len() > 0 {
        lemma_digits_of_all_digits(s.drop_last());
    }
}

/// Relates the guard `v <= (m - d) / 10` to the bound `v * 10 + d <= m`, for
/// the overflow checks of the decimal parsers.
pub proof fn lemma_div10_bound(v: int, d: int, m: int)
    requires
        0 <= d,
        0 <= v,
        d <= m,
    ensures
        v <= (m - d) / 10 ==> v * 10 + d <= m,
        v > (m - d) / 10 ==> v * 10 + d > m,
{
    vstd::arithmetic::div_mod::lemma_fundamental_div_mod(m - d, 10);
    vstd::arithmetic::div_mod::lemma_mod_division_less_than_divisor(m - d, 10);
    let q = (m - d) / 10;
    assert(v <= q ==> v * 10 <= q * 10) by (nonlinear_arith);
    assert(v > q ==> v * 10 >= q * 10 + 10) by (nonlinear_arith);
}

/// Parse the decimal value of all digit characters of `s`, in order, as the
/// season-folder rule reads them.  `None` when `s` holds no digit or the
/// value does not fit in `i32`.
pub fn parse_filtered_digits_i32(s: &str) -> (r: Option<i32>)
    ensures
        match r {
            Some(v) => v >= 0 && digits_of(s@).len() > 0 && v == digits_val(digits_of(s@)),
            None => digits_of(s@).len() == 0 || digits_val(digits_of(s@)) > i32::MAX,
        },
{
    let n = s.unicode_len();
    let mut i: usize = 0;
    let mut v: i32 = 0;
    let mut seen = false;
    proof {
        assert(s@.subrange(0, 0) =~= Seq::<char>::empty());
    }
    while i < n
        invariant
            0 <= i <= n,
            n == s@.len(),
            seen == (digits_of(s@.subrange(0, i as int)).len() > 0),
            v == digits_val(digits_of(s@.subrange(0, i as int))),
            v >= 0,
        decreases n - i,
    {
        let c = s.get_char(i);
        proof {
            assert(s@.subrange(0, i + 1).drop_last() =~= s@.subrange(0, i as int));
            assert(s@.subrange(0, i + 1).last() == s@[i as int]);
        }
        if digit_check(c) {
            let d = digit_value(c);
            proof {
                lemma_digits_of_all_digits(s@.subrange(0, i + 1));
                let pre = digits_of(s@.subrange(0, i as int));
                assert((pre + seq![c]).drop_last() =~= pre);
                assert((pre + seq![c]).last() == c);
                assert(digits_val(digits_of(s@.subrange(0, i + 1))) == v * 10 + digit_val(c));
                lemma_div10_bound(v as int, d as int, i32::MAX as int);
            }
            if v > (i32::MAX - d as i32) / 10 {
                proof {
                    let full = digits_of(s@);
                    let pre1 = digits_of(s@.subrange(0, i + 1));
                    assert(s@ =~= s@.subrange(0, i + 1) + s@.subrange(i + 1, n as int));
                    lemma_digits_of_concat(s@.subrange(0, i + 1), s@.subrange(i + 1, n as int));
                    lemma_digits_of_all_digits(s@.subrange(i + 1, n as int));
                    lemma_digits_val_nonneg(pre1);
                    lemma_digits_val_concat_ge(pre1, digits_of(s@.subrange(i + 1, n as int)));
                    assert(digits_val(full) >= digits_val(pre1));
                }
                return None;
            }
            v = v * 10 + d as i32;
            seen = true;
        }
        i += 1;
    }
    proof {
        assert(s@.subrange(0, n as int) =~= s@);
    }
    if seen {
        Some(v)
    } else {
        None
    }
}

/// Parse the run of digit characters that starts at position `from` of `s`.
/// `None` when the run is empty or its value does not fit in `i32`.
pub fn parse_digit_run_i32(s: &str, from: usize) -> (r: Option<i32>)
    requires
        from <= s@.len(),
    ensures
        ({
            let run = s@.subrange(from as int, digit_run_end(s@, from as int));
            match r {
                Some(v) => v >= 0 && run.len() > 0 && v == digits_val(run),
                None => run.len() == 0 || digits_val(run) > i32::MAX,
            }
        }),
{
    let n = s.unicode_len();
    let mut i = from;
    let mut v: i32 = 0;
    proof {
        assert(s@.subrange(from as int, from as int) =~= Seq::<char>::empty());
    }
    while i < n && digit_check(s.get_char(i))
        invariant
            from <= i <= n,
            n == s@.len(),
            digit_run_end(s@, from as int) == digit_run_end(s@, i as int),
            all_digits(s@.subrange(from as int, i as int)),
            v == digits_val(s@.subrange(from as int, i as int)),
            v >= 0,
        decreases n - i,
    {
        let d = digit_value(s.get_char(i));
        proof {
            assert(s@.subrange(from as int, i + 1).drop_last() =~= s@.subrange(
                from as int,
                i as int,
            ));
            assert(s@.subrange(from as int, i + 1).last() == s@[i as int]);
        }
        if v > (i32::MAX - d as i32) / 10 {
            proof {
                let end = digit_run_end(s@, from as int);
                lemma_digit_run_end_bounds(s@, i + 1);
                assert(s@.subrange(from as int, end) =~= s@.subrange(from as int, i + 1)
                    + s@.subrange(i + 1, end));
                lemma_digit_run_all_digits(s@, i + 1);
                lemma_digits_val_nonneg(s@.subrange(from as int, i + 1));
                lemma_digits_val_concat_ge(s@.subrange(from as int, i + 1), s@.subrange(i + 1, end));
            }
            return None;
        }
        v = v * 10 + d as i32;
        i += 1;
    }
    if i == from {
        None
    } else {
        Some(v)
    }
}

/// The end of a digit run lies between its start and the string's end.
pub proof fn lemma_digit_run_end_bounds(s: Seq<char>, i: int)
    requires
        0 <= i <= s.len(),
    ensures
        i <= digit_run_end(s, i) <= s.len(),
    decreases s.len() - i,
{
    if i < s.len() && is_digit_char(s[i]) {
        lemma_digit_run_end_bounds(s, i + 1);
    }
}

/// Every character between a position and the end of its digit run is a
/// digit.
pub proof fn lemma_digit_run_all_digits(s: Seq<char>, i: int)
    requires
        0 <= i <= s.len(),
    ensures
        all_digits(s.subrange(i, digit_run_end(s, i))),
    decreases s.len() - i,
{
    lemma_digit_run_end_bounds(s, i);
    if i < s.len() && is_digit_char(s[i]) {
        lemma_digit_run_all_digits(s, i + 1);
        let end = digit_run_end(s, i);
        assert(forall|k: int|
            i + 1 <= k < end ==> #[trigger] s.subrange(i + 1, end)[k - i - 1] == s[k]);
        assert(forall|k: int| 0 <= k < end - i ==> is_digit_char(#[trigger] s.subrange(i, end)[k]))
            by {
            assert(forall|k: int|
                1 <= k < end - i ==> #[trigger] s.subrange(i, end)[k] == s.subrange(i + 1, end)[k
                    - 1]);
        }
    } else {
        assert(s.subrange(i, i) =~= Seq::<char>::empty());
    }
}

/// Parse the characters of `s` between `from` and `to` as an unsigned
/// decimal number.  `None` when the range is empty, holds a non-digit, or
/// overflows `u64`.
pub fn parse_u64_range(s: &str, from: usize, to: usize) -> (r: Option<u64>)
    requires
        from <= to <= s@.len(),
    ensures
        ({
            let part = s@.subrange(from as int, to as int);
            match r {
                Some(v) => part.len() > 0 && all_digits(part) && v == digits_val(part),
                None => part.len() == 0 || !all_digits(part) || digits_val(part) > u64::MAX,
            }
        }),
{
    if from == to {
        return None;
    }
    let mut i = from;
    let mut v: u64 = 0;
    proof {
        assert(s@.subrange(from as int, from as int) =~= Seq::<char>::empty());
    }
    while i < to
        invariant
            from <= i <= to <= s@.len(),
            all_digits(s@.subrange(from as int, i as int)),
            v == digits_val(s@.subrange(from as int, i as int)),
            v >= 0,
        decreases to - i,
    {
        let c = s.get_char(i);
        proof {
            assert(s@.subrange(from as int, i + 1).drop_last() =~= s@.subrange(
                from as int,
                i as int,
            ));
            assert(s@.subrange(from as int, i + 1).last() == s@[i as int]);
        }
        if !digit_check(c) {
            proof {
                assert(!all_digits(s@.subrange(from as int, to as int))) by {
                    assert(s@.subrange(from as int, to as int)[i - from] == s@[i as int]);
                }
            }
            return None;
        }
        let d = digit_value(c);
        if v > (u64::MAX - d as u64) / 10 {
            proof {
                let part = s@.subrange(from as int, to as int);
                if all_digits(part) {
                    assert(part =~= s@.subrange(from as int, i + 1) + s@.subrange(i + 1, to as int));
                    assert(all_digits(s@.subrange(i + 1, to as int))) by {
                        assert(forall|k: int|
                            0 <= k < to - i - 1 ==> #[trigger] s@.subrange(i + 1, to as int)[k]
                                == part[k + (i + 1 - from)]);
                    }
                    lemma_digits_val_nonneg(s@.subrange(from as int, i + 1));
                    lemma_digits_val_concat_ge(
                        s@.subrange(from as int, i + 1),
                        s@.subrange(i + 1, to as int),
                    );
                }
            }
            return None;
        }
        v = v * 10 + d as u64;
        i += 1;
    }
    Some(v)
}

/// A digit string of at most four characters stays below ten thousand: the
/// bound the year parser relies on.
pub proof fn lemma_digits_val_len_bound(s: Seq<char>)
    requires
        all_digits(s),
        s.len() <= 4,
    ensures
        s.len() == 0 ==> digits_val(s) == 0,
        s.len() == 1 ==> digits_val(s) <= 9,
        s.len() == 2 ==> digits_val(s) <= 99,
        s.len() == 3 ==> digits_val(s) <= 999,
        s.len() == 4 ==> digits_val(s) <= 9999,
    decreases s.len(),
{
    if s.len() > 0 {
        assert(all_digits(s.drop_last())) by {
            assert(forall|i: int|
                0 <= i < s.drop_last().len() ==> #[trigger] s.drop_last()[i] == s[i]);
        }
        lemma_digits_val_len_bound(s.drop_last());
    }
}

/// A search that starts before the first occurrence of `c` finds that
/// occurrence.
pub proof fn lemma_find_char_first(s: Seq<char>, c: char, i: int, k: int)
    requires
        0 <= i <= k < s.len(),
        s[k] == c,
        forall|j: int| i <= j < k ==> s[j] != c,
    ensures
        find_char_from(s, c, i) == Some(k),
    decreases k - i,
{
    if i < k {
        lemma_find_char_first(s, c, i + 1, k);
    }
}

/// A search over characters that all differ from `c` finds nothing.
pub proof fn lemma_find_char_none(s: Seq<char>, c: char, i: int)
    requires
        0 <= i,
        forall|j: int| i <= j < s.len() ==> s[j] != c,
    ensures
        find_char_from(s, c, i) is None,
    decreases s.len() - i,
{
    if i < s.len() {
        lemma_find_char_none(s, c, i + 1);
    }
}

/// The ten digit characters evaluate as expected.
pub proof fn lemma_digit_char_val(d: int)
    requires
        0 <= d < 10,
    ensures
        is_digit_char(digit_char(d)),
        digit_val(digit_char(d)) == d,
{
    if d == 0 {
        assert(digit_char(0) == '0');
    } else if d == 1 {
        assert(digit_char(1) == '1');
    } else if d == 2 {
        assert(digit_char(2) == '2');
    } else if d == 3 {
        assert(digit_char(3) == '3');
    } else if d == 4 {
        assert(digit_char(4) == '4');
    } else if d == 5 {
        assert(digit_char(5) == '5');
    } else if d == 6 {
        assert(digit_char(6) == '6');
    } else if d == 7 {
        assert(digit_char(7) == '7');
    } else if d == 8 {
        assert(digit_char(8) == '8');
    } else {
        assert(digit_char(9) == '9');
    }
}

/// A decimal rendering is a non-empty digit string whose value is the
/// rendered number.
pub proof fn lemma_dec_str_digits(n: nat)
    ensures
        dec_str(n).len() >= 1,
        all_digits(dec_str(n)),
        digits_val(dec_str(n)) == n,
    decreases n,
{
    vstd::arithmetic::div_mod::lemma_fundamental_div_mod(n as int, 10);
    if n < 10 {
        lemma_digit_char_val(n as int);
        assert(seq![digit_char(n as int)].drop_last() =~= Seq::<char>::empty());
        assert(seq![digit_char(n as int)].last() == digit_char(n as int));
        assert(digits_val(Seq::<char>::empty()) == 0);
        assert(digits_val(dec_str(n)) == digit_val(digit_char(n as int)));
    } else {
        lemma_dec_str_digits(n / 10);
        lemma_digit_char_val((n % 10) as int);
        let pre = dec_str(n / 10);
        let c = digit_char((n % 10) as int);
        assert((pre + seq![c]).drop_last() =~= pre);
        assert((pre + seq![c]).last() == c);
        assert(forall|i: int|
            0 <= i < pre.len() ==> #[trigger] (pre + seq![c])[i] == pre[i]);
        assert(dec_str(n) == pre + seq![c]);
        assert(digits_val(dec_str(n)) == digits_val(pre) * 10 + digit_val(c));
        assert(digits_val(pre) == n / 10);
        assert(digit_val(c) == n % 10);
        assert((n / 10) * 10 + n % 10 == n);
    }
}

/// Append a decimal digit character to `s`.
fn push_digit(s: &mut String, d: u32)
    requires
        d < 10,
    ensures
        final(s)@ == old(s)@ + seq![digit_char(d as int)],
{
    match d {
        0 => {
            proof {
                reveal_strlit("0");
            }
            s.append("0");
        },
        1 => {
            proof {
                reveal_strlit("1");
            }
            s.append("1");
        },
        2 => {
            proof {
                reveal_strlit("2");
            }
            s.append("2");
        },
        3 => {
            proof {
                reveal_strlit("3");
            }
            s.append("3");
        },
        4 => {
            proof {
                reveal_strlit("4");
            }
            s.append("4");
        },
        5 => {
            proof {
                reveal_strlit("5");
            }
            s.append("5");
        },
        6 => {
            proof {
                reveal_strlit("6");
            }
            s.append("6");
        },
        7 => {
            proof {
                reveal_strlit("7");
            }
            s.append("7");
        },
        8 => {
            proof {
                reveal_strlit("8");
            }
            s.append("8");
        },
        _ => {
            proof {
                reveal_strlit("9");
            }
            s.append("9");
        },
    }
}

/// Append the decimal rendering of `n` to `s`.
pub fn push_dec_u64(s: &mut String, n: u64)
    ensures
        final(s)@ == old(s)@ + dec_str(n as nat),
    decreases n,
{
    if n >= 10 {
        push_dec_u64(s, n / 10);
    }
    push_digit(s, (n % 10) as u32);
    proof {
        if n >= 10 {
            assert(old(s)@ + dec_str((n / 10) as nat) + seq![
                digit_char((n % 10) as int),
            ] =~= old(s)@ + dec_str(n as nat));
        } else {
            assert((n % 10) as int == n as int);
        }
    }
}

/// The decimal rendering of `n` as a fresh string.
pub fn u64_to_dec_string(n: u64) -> (r: String)
    ensures
        r@ == dec_str(n as nat),
{
    let mut s = String::new();
    push_dec_u64(&mut s, n);
    proof {
        assert(Seq::<char>::empty() + dec_str(n as nat) =~= dec_str(n as nat));
    }
    s
}

/// The trimmed middle of `s`: without leading and trailing whitespace.
pub fn trim_of(s: &str) -> (r: &str)
    ensures
        r@ == trim_spec(s@),
{
    let n = s.unicode_len();
    proof {
        assert(s@.subrange(0, n as int) =~= s@);
    }
    let mut i: usize = 0;
    while i < n && space_check(s.get_char(i))
        invariant
            0 <= i <= n,
            n == s@.len(),
            trim_start_spec(s@) == trim_start_spec(s@.subrange(i as int, n as int)),
        decreases n - i,
    {
        proof {
            let t = s@.subrange(i as int, n as int);
            assert(t.drop_first() =~= s@.subrange(i + 1, n as int));
        }
        i += 1;
    }
    proof {
        let t = s@.subrange(i as int, n as int);
        if i < n {
            assert(trim_start_spec(t) == t);
        } else {
            assert(t =~= Seq::<char>::empty());
        }
    }
    let mut j: usize = n;
    while j > i && space_check(s.get_char(j - 1))
        invariant
            i <= j <= n,
            n == s@.len(),
            trim_start_spec(s@) == s@.subrange(i as int, n as int),
            i < n ==> !is_space_char(s@[i as int]),
            trim_end_spec(s@.subrange(i as int, n as int)) == trim_end_spec(
                s@.subrange(i as int, j as int),
            ),
        decreases j,
    {
        proof {
            let t = s@.subrange(i as int, j as int);
            assert(t.drop_last() =~= s@.subrange(i as int, j - 1));
        }
        j -= 1;
    }
    proof {
        let t = s@.subrange(i as int, j as int);
        if j > i {
            assert(t.last() == s@[j - 1]);
            assert(trim_end_spec(t) == t);
        } else {
            assert(t =~= Seq::<char>::empty());
        }
    }
    s.substring_char(i, j)
}

/// Whether `c` is ASCII whitespace.
pub fn space_check(c: char) -> (r: bool)
    ensures
        r == is_space_char(c),
{
    c == ' ' || c == '\t' || c == '\n' || c == '\r'
}

/// Whether one of the strings of `v` holds the same characters as `s`.
pub fn vec_contains_str(v: &Vec<String>, s: &str) -> (r: bool)
    ensures
        r == (exists|k: int| 0 <= k < v@.len() && #[trigger] v@[k]@ == s@),
{
    let mut k: usize = 0;
    while k < v.len()
        invariant
            0 <= k <= v@.len(),
            forall|t: int| 0 <= t < k ==> #[trigger] v@[t]@ != s@,
        decreases v@.len() - k,
    {
        if str_eq_str(v[k].as_str(), s) {
            return true;
        }
        k += 1;
    }
    false
}

} // verus!
