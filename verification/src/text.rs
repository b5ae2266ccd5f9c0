//! Character-level helpers shared by the parsers and the labels.

use vstd::prelude::*;

verus! {

/// The ASCII digit for `d` (`d < 10`).
pub open spec fn digit_char(d: nat) -> char {
    (48 + d) as char
}

/// Decimal representation of `n`, without sign or leading zeros.
pub open spec fn dec_digits(n: nat) -> Seq<char>
    decreases n,
{
    if n < 10 {
        seq![digit_char(n)]
    } else {
        dec_digits(n / 10).push(digit_char(n % 10))
    }
}

/// Appends one character to a string (std `String::push`).
#[verifier::external_body]
pub(crate) fn push_char(s: &mut String, c: char)
    ensures
        final(s)@ == old(s)@.push(c),
{
    s.push(c);
}

/// Decimal rendering of an unsigned integer, as `to_string` writes it.
pub fn u64_to_string(n: u64) -> (res: String)
    ensures
        res@ == dec_digits(n as nat),
{
    let mut digits: Vec<char> = Vec::new();
    let mut m: u64 = n;
    while m >= 10
        invariant
            dec_digits(n as nat) == dec_digits(m as nat) + digits@.reverse(),
        decreases m,
    {
        let d: u64 = m % 10;
        digits.push(((d as u8) + 48u8) as char);
        m = m / 10;
    }
    digits.push(((m as u8) + 48u8) as char);
    let mut res = String::new();
    let mut i: usize = digits.len();
    while i > 0
        invariant
            i <= digits.len(),
            res@ == digits@.subrange(i as int, digits.len() as int).reverse(),
        decreases i,
    {
        i = i - 1;
        push_char(&mut res, digits[i]);
    }
    res
}

} // verus!

verus! {

/// The characters of a string slice, in order.
pub fn chars_of(s: &str) -> (v: Vec<char>)
    ensures
        v@ == s@,
{
    broadcast use vstd::string::group_string_axioms;
    let mut v: Vec<char> = Vec::new();
    let mut it = s.chars();
    proof {
        vstd::string::axiom_spec_iter(s);
    }
    loop
        invariant
            v@ + vstd::std_specs::iter::IteratorSpec::remaining(&it) == s@,
            vstd::std_specs::iter::IteratorSpec::decrease(&it) is Some,
        decreases vstd::std_specs::iter::IteratorSpec::decrease(&it)->0,
    {
        let ghost before = vstd::std_specs::iter::IteratorSpec::remaining(&it);
        match it.next() {
            Some(c) => {
                v.push(c);
                assert(v@ + vstd::std_specs::iter::IteratorSpec::remaining(&it) =~= s@) by {
                    assert(before == seq![c] + before.drop_first());
                }
            },
            None => {
                assert(v@ =~= s@);
                return v;
            },
        }
    }
}

} // verus!

verus! {

/// Unicode `White_Space` property, the set that `char::is_whitespace` tests.
pub open spec fn is_ws(c: char) -> bool {
    let u = c as u32;
    ||| 9 <= u <= 13
    ||| u == 32
    ||| u == 0x85
    ||| u == 0xA0
    ||| u == 0x1680
    ||| 0x2000 <= u <= 0x200A
    ||| u == 0x2028
    ||| u == 0x2029
    ||| u == 0x202F
    ||| u == 0x205F
    ||| u == 0x3000
}

pub fn is_whitespace(c: char) -> (b: bool)
    ensures
        b == is_ws(c),
{
    let u = c as u32;
    (9 <= u && u <= 13) || u == 32 || u == 0x85 || u == 0xA0 || u == 0x1680 || (0x2000 <= u && u
        <= 0x200A) || u == 0x2028 || u == 0x2029 || u == 0x202F || u == 0x205F || u == 0x3000
}

/// Length of the leading run of non-whitespace characters.
pub open spec fn word_len(s: Seq<char>) -> nat
    decreases s.len(),
{
    if s.len() == 0 || is_ws(s[0]) {
        0
    } else {
        1 + word_len(s.skip(1))
    }
}

pub proof fn lemma_word_len_bound(s: Seq<char>)
    ensures
        word_len(s) <= s.len(),
        s.len() > 0 && !is_ws(s[0]) ==> word_len(s) > 0,
    decreases s.len(),
{
    if s.len() > 0 && !is_ws(s[0]) {
        lemma_word_len_bound(s.skip(1));
    }
}

/// The text of each character vector.
pub open spec fn texts(v: Seq<Vec<char>>) -> Seq<Seq<char>> {
    v.map_values(|w: Vec<char>| w@)
}

/// The whitespace-separated words of `s`, as `str::split_whitespace` yields them.
pub open spec fn words(s: Seq<char>) -> Seq<Seq<char>>
    decreases s.len(),
{
    if s.len() == 0 {
        seq![]
    } else if is_ws(s[0]) {
        words(s.skip(1))
    } else {
        let k = word_len(s);
        proof {
            lemma_word_len_bound(s);
        }
        if k == 0 {
            seq![]
        } else {
            seq![s.take(k as int)] + words(s.skip(k as int))
        }
    }
}

proof fn lemma_word_len(s: Seq<char>, k: int)
    requires
        0 <= k <= s.len(),
        forall|i: int| 0 <= i < k ==> !is_ws(#[trigger] s[i]),
        k == s.len() || is_ws(s[k]),
    ensures
        word_len(s) == k,
    decreases k,
{
    if k > 0 {
        let t = s.skip(1);
        assert forall|i: int| 0 <= i < k - 1 implies !is_ws(#[trigger] t[i]) by {
            assert(t[i] == s[i + 1]);
        }
        if k < s.len() {
            assert(t[k - 1] == s[k]);
        }
        lemma_word_len(t, k - 1);
    }
}

/// Copy of `s[start..end]`.
pub fn slice_copy(s: &Vec<char>, start: usize, end: usize) -> (res: Vec<char>)
    requires
        start <= end <= s@.len(),
    ensures
        res@ == s@.subrange(start as int, end as int),
{
    let mut res: Vec<char> = Vec::new();
    let mut i = start;
    while i < end
        invariant
            start <= i <= end <= s@.len(),
            res@ == s@.subrange(start as int, i as int),
        decreases end - i,
    {
        res.push(s[i]);
        i = i + 1;
        assert(res@ =~= s@.subrange(start as int, i as int));
    }
    res
}

/// `str::split_whitespace` over a character sequence.
pub fn split_words(s: &Vec<char>) -> (res: Vec<Vec<char>>)
    ensures
        texts(res@) == words(s@),
{
    let mut res: Vec<Vec<char>> = Vec::new();
    let mut i: usize = 0;
    let n = s.len();
    assert(s@.skip(0) =~= s@);
    assert(texts(res@) =~= Seq::<Seq<char>>::empty());
    while i < n
        invariant
            n == s@.len(),
            i <= n,
            words(s@) == texts(res@) + words(s@.skip(i as int)),
        decreases n - i,
    {
        let ghost rest = s@.skip(i as int);
        if is_whitespace(s[i]) {
            assert(rest[0] == s@[i as int]);
            assert(rest.skip(1) =~= s@.skip(i + 1));
            i = i + 1;
        } else {
            let mut j = i + 1;
            while j < n && !is_whitespace(s[j])
                invariant
                    i < j <= n,
                    n == s@.len(),
                    forall|k: int| i <= k < j ==> !is_ws(#[trigger] s@[k]),
                decreases n - j,
            {
                j = j + 1;
            }
            proof {
                assert forall|k: int| 0 <= k < j - i implies !is_ws(#[trigger] rest[k]) by {
                    assert(rest[k] == s@[i + k]);
                }
                if j < n {
                    assert(rest[j - i] == s@[j as int]);
                }
                lemma_word_len(rest, j - i);
                assert(rest.take(j - i) =~= s@.subrange(i as int, j as int));
                assert(rest.skip(j - i) =~= s@.skip(j as int));
            }
            let w = slice_copy(s, i, j);
            let ghost old_res = texts(res@);
            res.push(w);
            assert(texts(res@) =~= old_res.push(w@));
            assert(words(rest) == seq![w@] + words(s@.skip(j as int)));
            assert(old_res + words(rest) =~= texts(res@) + words(s@.skip(j as int)));
            i = j;
        }
    }
    assert(s@.skip(n as int) =~= Seq::<char>::empty());
    assert(texts(res@) + Seq::<Seq<char>>::empty() =~= texts(res@));
    res
}

} // verus!

verus! {

/// Value of `c` as a digit in base `radix` (up to 36), or -1 when it is none.
pub open spec fn digit_val(c: char, radix: nat) -> int {
    let u = c as u32;
    let d: int = if 48 <= u <= 57 {
        u - 48
    } else if 97 <= u <= 122 {
        u - 97 + 10
    } else if 65 <= u <= 90 {
        u - 65 + 10
    } else {
        99
    };
    if d < radix {
        d
    } else {
        -1
    }
}

pub open spec fn all_digits(s: Seq<char>, radix: nat) -> bool {
    forall|i: int| 0 <= i < s.len() ==> digit_val(#[trigger] s[i], radix) >= 0
}

/// Numeric value of a digit string in base `radix`.
pub open spec fn digits_value(s: Seq<char>, radix: nat) -> nat
    decreases s.len(),
{
    if s.len() == 0 {
        0
    } else {
        (digits_value(s.drop_last(), radix) * radix + digit_val(s.last(), radix)) as nat
    }
}

/// The digits that follow an optional leading `+`.
pub open spec fn unsigned_body(s: Seq<char>) -> Seq<char> {
    if s.len() > 0 && s[0] == '+' {
        s.skip(1)
    } else {
        s
    }
}

/// What `from_str_radix` of an unsigned integer type whose largest value is
/// `max` gives: an optional `+`, then at least one digit, all in the radix,
/// with a value that fits.
pub open spec fn parse_uint(s: Seq<char>, radix: nat, max: nat) -> Option<nat> {
    let body = unsigned_body(s);
    if body.len() == 0 || !all_digits(body, radix) {
        None
    } else if digits_value(body, radix) > max {
        None
    } else {
        Some(digits_value(body, radix))
    }
}

pub fn digit_of(c: char, radix: u32) -> (d: Option<u32>)
    requires
        2 <= radix <= 36,
    ensures
        match d {
            Some(v) => digit_val(c, radix as nat) == v as int && v < radix,
            None => digit_val(c, radix as nat) == -1,
        },
{
    let u = c as u32;
    let d: u32 = if 48 <= u && u <= 57 {
        u - 48
    } else if 97 <= u && u <= 122 {
        u - 97 + 10
    } else if 65 <= u && u <= 90 {
        u - 65 + 10
    } else {
        99
    };
    if d < radix {
        Some(d)
    } else {
        None
    }
}

/// Unsigned integer parsing of `s` in base `radix`, bounded by `max`.
pub fn parse_uint_chars(s: &Vec<char>, radix: u32, max: u64) -> (res: Option<u64>)
    requires
        2 <= radix <= 36,
    ensures
        match parse_uint(s@, radix as nat, max as nat) {
            Some(v) => res == Some(v as u64),
            None => res is None,
        },
{
    let n = s.len();
    let start: usize = if n > 0 && s[0] == '+' {
        1
    } else {
        0
    };
    let ghost body = unsigned_body(s@);
    assert(body =~= s@.skip(start as int));
    if start == n {
        return None;
    }
    let mut val: u64 = 0;
    let mut over = false;
    let mut i = start;
    while i < n
        invariant
            start <= i <= n == s@.len(),
            body == s@.skip(start as int),
            body == unsigned_body(s@),
            2 <= radix <= 36,
            all_digits(body.take(i - start), radix as nat),
            !over ==> val as nat == digits_value(body.take(i - start), radix as nat),
            over ==> digits_value(body.take(i - start), radix as nat) > max,
            val <= max,
        decreases n - i,
    {
        let ghost pre = body.take(i - start);
        let ghost next = body.take(i - start + 1);
        assert(next.drop_last() =~= pre);
        assert(next.last() == s@[i as int]);
        match digit_of(s[i], radix) {
            None => {
                assert(body[i - start] == s@[i as int]);
                assert(digit_val(body[i - start], radix as nat) == -1);
                assert(!all_digits(body, radix as nat));
                return None;
            },
            Some(d) => {
                let ghost pv = digits_value(pre, radix as nat);
                assert(digits_value(next, radix as nat) == pv * radix + d);
                if !over {
                    assert((val as u128) * (radix as u128) <= 0xffff_ffff_ffff_ffffu128 * 36)
                        by (nonlinear_arith)
                        requires
                            val <= 0xffff_ffff_ffff_ffffu64,
                            radix <= 36,
                    ;
                    let wide: u128 = (val as u128) * (radix as u128) + (d as u128);
                    assert(wide == pv * radix + d) by (nonlinear_arith)
                        requires
                            val == pv,
                            wide == (val as u128) * (radix as u128) + (d as u128),
                    ;
                    if wide > max as u128 {
                        over = true;
                    } else {
                        val = wide as u64;
                    }
                } else {
                    assert(pv * radix + d >= pv) by (nonlinear_arith)
                        requires
                            radix >= 1,
                            d >= 0,
                            pv >= 0,
                    ;
                }
                assert forall|k: int| 0 <= k < next.len() implies digit_val(
                    #[trigger] next[k],
                    radix as nat,
                ) >= 0 by {
                    if k < pre.len() {
                        assert(next[k] == pre[k]);
                    }
                }
            },
        }
        i = i + 1;
    }
    assert(body.take(n - start) =~= body);
    if over {
        None
    } else {
        Some(val)
    }
}

} // verus!

verus! {

/// A string holding exactly the given characters.
pub fn string_of(v: &Vec<char>) -> (s: String)
    ensures
        s@ == v@,
{
    let mut s = String::new();
    let mut i: usize = 0;
    while i < v.len()
        invariant
            i <= v@.len(),
            s@ == v@.take(i as int),
        decreases v.len() - i,
    {
        push_char(&mut s, v[i]);
        i = i + 1;
        assert(s@ =~= v@.take(i as int));
    }
    assert(v@.take(v@.len() as int) =~= v@);
    s
}

pub open spec fn has_prefix(s: Seq<char>, p: Seq<char>) -> bool {
    p.len() <= s.len() && s.take(p.len() as int) == p
}

pub open spec fn has_suffix(s: Seq<char>, p: Seq<char>) -> bool {
    p.len() <= s.len() && s.skip(s.len() - p.len()) == p
}

/// `p` occurs in `s` as a contiguous block.
pub open spec fn occurs_in(s: Seq<char>, p: Seq<char>) -> bool {
    exists|i: int| 0 <= i && i + p.len() <= s.len() && #[trigger] s.subrange(i, i + p.len()) == p
}

/// Whether `p` matches `s` at position `at`.
fn matches_at(s: &Vec<char>, p: &Vec<char>, at: usize) -> (b: bool)
    requires
        at + p@.len() <= s@.len(),
    ensures
        b == (s@.subrange(at as int, at + p@.len()) == p@),
{
    let mut k: usize = 0;
    while k < p.len()
        invariant
            k <= p@.len(),
            at + p@.len() <= s@.len(),
            s@.len() == s.len(),
            s@.subrange(at as int, at + k) == p@.take(k as int),
        decreases p.len() - k,
    {
        if s[at + k] != p[k] {
            assert(s@.subrange(at as int, at + p@.len())[k as int] != p@[k as int]);
            return false;
        }
        k = k + 1;
        assert(s@.subrange(at as int, at + k) =~= p@.take(k as int));
    }
    assert(p@.take(p@.len() as int) =~= p@);
    true
}

pub fn starts_with(s: &Vec<char>, p: &Vec<char>) -> (b: bool)
    ensures
        b == has_prefix(s@, p@),
{
    if p.len() > s.len() {
        return false;
    }
    let r = matches_at(s, p, 0);
    assert(s@.subrange(0, p@.len() as int) =~= s@.take(p@.len() as int));
    r
}

pub fn ends_with(s: &Vec<char>, p: &Vec<char>) -> (b: bool)
    ensures
        b == has_suffix(s@, p@),
{
    if p.len() > s.len() {
        return false;
    }
    let at = s.len() - p.len();
    let r = matches_at(s, p, at);
    assert(s@.subrange(at as int, at + p@.len()) =~= s@.skip(at as int));
    r
}

pub fn contains(s: &Vec<char>, p: &Vec<char>) -> (b: bool)
    ensures
        b == occurs_in(s@, p@),
{
    if p.len() > s.len() {
        return false;
    }
    if p.len() == 0 {
        assert(s@.subrange(0int, 0int + p@.len()) =~= p@);
        return true;
    }
    let last = s.len() - p.len();
    let mut i: usize = 0;
    while i <= last
        invariant
            last + p@.len() == s@.len(),
            p@.len() >= 1,
            s@.len() == s.len(),
            forall|j: int| 0 <= j < i ==> #[trigger] s@.subrange(j, j + p@.len()) != p@,
        decreases last + 1 - i,
    {
        if matches_at(s, p, i) {
            return true;
        }
        i = i + 1;
    }
    false
}

/// `str::contains` with a literal pattern.
pub fn contains_str(s: &Vec<char>, p: &str) -> (b: bool)
    ensures
        b == occurs_in(s@, p@),
{
    let pv = chars_of(p);
    contains(s, &pv)
}

pub fn starts_with_str(s: &Vec<char>, p: &str) -> (b: bool)
    ensures
        b == has_prefix(s@, p@),
{
    let pv = chars_of(p);
    starts_with(s, &pv)
}

pub fn ends_with_str(s: &Vec<char>, p: &str) -> (b: bool)
    ensures
        b == has_suffix(s@, p@),
{
    let pv = chars_of(p);
    ends_with(s, &pv)
}

/// Index of the first `c` in `s`, or the length of `s` when there is none.
pub open spec fn first_index(s: Seq<char>, c: char) -> nat
    decreases s.len(),
{
    if s.len() == 0 || s[0] == c {
        0
    } else {
        1 + first_index(s.skip(1), c)
    }
}

pub proof fn lemma_first_index(s: Seq<char>, c: char, k: int)
    requires
        0 <= k <= s.len(),
        forall|i: int| 0 <= i < k ==> #[trigger] s[i] != c,
        k == s.len() || s[k] == c,
    ensures
        first_index(s, c) == k,
    decreases k,
{
    if k > 0 {
        let t = s.skip(1);
        assert forall|i: int| 0 <= i < k - 1 implies #[trigger] t[i] != c by {
            assert(t[i] == s[i + 1]);
        }
        if k < s.len() {
            assert(t[k - 1] == s[k]);
        }
        lemma_first_index(t, c, k - 1);
    }
}

pub fn find_char(s: &Vec<char>, c: char) -> (k: usize)
    ensures
        k == first_index(s@, c),
        k <= s@.len(),
        k < s@.len() ==> s@[k as int] == c,
        forall|i: int| 0 <= i < k ==> s@[i] != c,
{
    let mut k: usize = 0;
    while k < s.len() && s[k] != c
        invariant
            k <= s@.len(),
            forall|i: int| 0 <= i < k ==> #[trigger] s@[i] != c,
        decreases s.len() - k,
    {
        k = k + 1;
    }
    proof {
        lemma_first_index(s@, c, k as int);
    }
    k
}

/// Index of the last `c` in `s`, or -1 when there is none.
pub open spec fn last_index(s: Seq<char>, c: char) -> int
    decreases s.len(),
{
    if s.len() == 0 {
        -1
    } else if s.last() == c {
        s.len() - 1
    } else {
        last_index(s.drop_last(), c)
    }
}

pub fn rfind_char(s: &Vec<char>, c: char) -> (k: Option<usize>)
    ensures
        match k {
            Some(i) => i as int == last_index(s@, c) && i < s@.len() && s@[i as int] == c,
            None => last_index(s@, c) == -1,
        },
{
    let mut j: usize = s.len();
    assert(s@.take(j as int) =~= s@);
    while j > 0
        invariant
            j <= s@.len(),
            last_index(s@, c) == last_index(s@.take(j as int), c),
        decreases j,
    {
        let ghost t = s@.take(j as int);
        assert(t.drop_last() =~= s@.take(j - 1));
        if s[j - 1] == c {
            return Some(j - 1);
        }
        j = j - 1;
    }
    None
}

/// Removes one trailing carriage return.
pub open spec fn strip_cr(l: Seq<char>) -> Seq<char> {
    if l.len() > 0 && l.last() == '\r' {
        l.drop_last()
    } else {
        l
    }
}

/// The lines of `s`, as `str::lines` yields them: split at `\n`, with a
/// `\r` before the `\n` removed, and no empty line after a final `\n`.
pub open spec fn lines(s: Seq<char>) -> Seq<Seq<char>>
    decreases s.len(),
{
    if s.len() == 0 {
        seq![]
    } else {
        let k = first_index(s, '\n');
        if k >= s.len() {
            seq![s]
        } else {
            seq![strip_cr(s.take(k as int))] + lines(s.skip(k + 1 as int))
        }
    }
}

pub fn split_lines(s: &Vec<char>) -> (res: Vec<Vec<char>>)
    ensures
        texts(res@) == lines(s@),
{
    let mut res: Vec<Vec<char>> = Vec::new();
    let n = s.len();
    let mut i: usize = 0;
    assert(s@.skip(0) =~= s@);
    assert(texts(res@) =~= Seq::<Seq<char>>::empty());
    while i < n
        invariant
            n == s@.len(),
            i <= n,
            lines(s@) == texts(res@) + lines(s@.skip(i as int)),
        decreases n - i,
    {
        let ghost rest = s@.skip(i as int);
        let mut j = i;
        while j < n && s[j] != '\n'
            invariant
                i <= j <= n == s@.len(),
                forall|k: int| i <= k < j ==> #[trigger] s@[k] != '\n',
            decreases n - j,
        {
            j = j + 1;
        }
        proof {
            assert forall|k: int| 0 <= k < j - i implies #[trigger] rest[k] != '\n' by {
                assert(rest[k] == s@[i + k]);
            }
            if j < n {
                assert(rest[j - i] == s@[j as int]);
            }
            lemma_first_index(rest, '\n', j - i);
        }
        let mut end = j;
        if j < n && end > i && s[end - 1] == '\r' {
            end = end - 1;
        }
        let line = slice_copy(s, i, end);
        let ghost old_res = texts(res@);
        res.push(line);
        assert(texts(res@) =~= old_res.push(line@));
        if j < n {
            assert(strip_cr(rest.take(j - i)) =~= line@);
            assert(rest.skip(j - i + 1) =~= s@.skip(j + 1));
            assert(old_res + lines(rest) =~= texts(res@) + lines(s@.skip(j + 1)));
            i = j + 1;
        } else {
            assert(rest =~= line@);
            assert(s@.skip(n as int) =~= Seq::<char>::empty());
            assert(old_res + lines(rest) =~= texts(res@) + lines(s@.skip(n as int)));
            i = n;
        }
    }
    assert(s@.skip(n as int) =~= Seq::<char>::empty());
    assert(texts(res@) + Seq::<Seq<char>>::empty() =~= texts(res@));
    res
}

} // verus!

verus! {

pub proof fn lemma_first_index_bound(s: Seq<char>, c: char)
    ensures
        first_index(s, c) <= s.len(),
        first_index(s, c) < s.len() ==> s[first_index(s, c) as int] == c,
    decreases s.len(),
{
    if s.len() > 0 && s[0] != c {
        lemma_first_index_bound(s.skip(1), c);
        if first_index(s, c) < s.len() {
            assert(s.skip(1)[first_index(s.skip(1), c) as int] == s[first_index(s, c) as int]);
        }
    }
}

/// The pieces of `s` between occurrences of `c`, as `str::split(c)` yields them.
pub open spec fn split_on(s: Seq<char>, c: char) -> Seq<Seq<char>>
    decreases s.len(),
{
    let k = first_index(s, c);
    proof {
        lemma_first_index_bound(s, c);
    }
    if k >= s.len() {
        seq![s]
    } else {
        seq![s.take(k as int)] + split_on(s.skip(k + 1 as int), c)
    }
}

pub fn split_fields(s: &Vec<char>, c: char) -> (res: Vec<Vec<char>>)
    ensures
        texts(res@) == split_on(s@, c),
{
    let mut res: Vec<Vec<char>> = Vec::new();
    let n = s.len();
    let mut i: usize = 0;
    assert(s@.skip(0) =~= s@);
    assert(texts(res@) =~= Seq::<Seq<char>>::empty());
    loop
        invariant
            n == s@.len(),
            i <= n,
            split_on(s@, c) == texts(res@) + split_on(s@.skip(i as int), c),
        decreases n - i,
    {
        let ghost rest = s@.skip(i as int);
        let mut j = i;
        while j < n && s[j] != c
            invariant
                i <= j <= n == s@.len(),
                forall|k: int| i <= k < j ==> #[trigger] s@[k] != c,
            decreases n - j,
        {
            j = j + 1;
        }
        proof {
            assert forall|k: int| 0 <= k < j - i implies #[trigger] rest[k] != c by {
                assert(rest[k] == s@[i + k]);
            }
            if j < n {
                assert(rest[j - i] == s@[j as int]);
            }
            lemma_first_index(rest, c, j - i);
        }
        let piece = slice_copy(s, i, j);
        let ghost old_res = texts(res@);
        res.push(piece);
        assert(texts(res@) =~= old_res.push(piece@));
        if j < n {
            assert(rest.take(j - i) =~= piece@);
            assert(rest.skip(j - i + 1) =~= s@.skip(j + 1));
            assert(old_res + split_on(rest, c) =~= texts(res@) + split_on(s@.skip(j + 1), c));
            i = j + 1;
        } else {
            assert(rest =~= piece@);
            assert(old_res + split_on(rest, c) =~= texts(res@));
            return res;
        }
    }
}

/// Whether two character sequences are equal.
pub fn chars_eq(a: &Vec<char>, b: &Vec<char>) -> (r: bool)
    ensures
        r == (a@ == b@),
{
    if a.len() != b.len() {
        return false;
    }
    let mut i: usize = 0;
    while i < a.len()
        invariant
            a@.len() == b@.len(),
            i <= a@.len(),
            forall|k: int| 0 <= k < i ==> a@[k] == b@[k],
        decreases a.len() - i,
    {
        if a[i] != b[i] {
            return false;
        }
        i = i + 1;
    }
    assert(a@ =~= b@);
    true
}

pub fn chars_eq_str(a: &Vec<char>, b: &str) -> (r: bool)
    ensures
        r == (a@ == b@),
{
    let bv = chars_of(b);
    chars_eq(a, &bv)
}

/// The part of `s` after the last `c` (all of `s` when there is none),
/// as `s.split(c).last()` and `s.rsplit(c).next()` give it.
pub open spec fn after_last(s: Seq<char>, c: char) -> Seq<char> {
    s.skip(last_index(s, c) + 1)
}

pub proof fn lemma_last_index_bound(s: Seq<char>, c: char)
    ensures
        -1 <= last_index(s, c) < s.len(),
    decreases s.len(),
{
    if s.len() > 0 && s.last() != c {
        lemma_last_index_bound(s.drop_last(), c);
    }
}

pub fn after_last_char(s: &Vec<char>, c: char) -> (res: Vec<char>)
    ensures
        res@ == after_last(s@, c),
{
    proof {
        lemma_last_index_bound(s@, c);
    }
    let n = s.len();
    match rfind_char(s, c) {
        Some(i) => slice_copy(s, i + 1, n),
        None => {
            assert(s@.skip(0) =~= s@);
            slice_copy(s, 0, s.len())
        },
    }
}

/// Length of the leading run of whitespace.
pub open spec fn lead_ws(s: Seq<char>) -> nat
    decreases s.len(),
{
    if s.len() > 0 && is_ws(s[0]) {
        1 + lead_ws(s.skip(1))
    } else {
        0
    }
}

/// `s` without trailing whitespace, as `str::trim_end` gives it.
pub open spec fn trim_end(s: Seq<char>) -> Seq<char>
    decreases s.len(),
{
    if s.len() > 0 && is_ws(s.last()) {
        trim_end(s.drop_last())
    } else {
        s
    }
}

/// `s` without leading whitespace, as `str::trim_start` gives it.
pub open spec fn trim_start(s: Seq<char>) -> Seq<char> {
    s.skip(lead_ws(s) as int)
}

/// `s` without leading and trailing whitespace, as `str::trim` gives it.
pub open spec fn trim(s: Seq<char>) -> Seq<char> {
    trim_end(trim_start(s))
}

pub proof fn lemma_lead_ws(s: Seq<char>, k: int)
    requires
        0 <= k <= s.len(),
        forall|i: int| 0 <= i < k ==> is_ws(#[trigger] s[i]),
        k == s.len() || !is_ws(s[k]),
    ensures
        lead_ws(s) == k,
    decreases k,
{
    if k > 0 {
        let t = s.skip(1);
        assert forall|i: int| 0 <= i < k - 1 implies is_ws(#[trigger] t[i]) by {
            assert(t[i] == s[i + 1]);
        }
        if k < s.len() {
            assert(t[k - 1] == s[k]);
        }
        lemma_lead_ws(t, k - 1);
    }
}

pub fn trim_start_chars(s: &Vec<char>) -> (res: Vec<char>)
    ensures
        res@ == trim_start(s@),
{
    let mut k: usize = 0;
    while k < s.len() && is_whitespace(s[k])
        invariant
            k <= s@.len(),
            forall|i: int| 0 <= i < k ==> is_ws(#[trigger] s@[i]),
        decreases s.len() - k,
    {
        k = k + 1;
    }
    proof {
        lemma_lead_ws(s@, k as int);
    }
    slice_copy(s, k, s.len())
}

pub fn trim_end_chars(s: &Vec<char>) -> (res: Vec<char>)
    ensures
        res@ == trim_end(s@),
{
    let mut e: usize = s.len();
    assert(s@.take(e as int) =~= s@);
    while e > 0 && is_whitespace(s[e - 1])
        invariant
            e <= s@.len(),
            trim_end(s@) == trim_end(s@.take(e as int)),
        decreases e,
    {
        assert(s@.take(e as int).drop_last() =~= s@.take(e - 1));
        e = e - 1;
    }
    let res = slice_copy(s, 0, e);
    assert(res@ =~= s@.take(e as int));
    res
}

pub fn trim_chars(s: &Vec<char>) -> (res: Vec<char>)
    ensures
        res@ == trim(s@),
{
    let t = trim_start_chars(s);
    trim_end_chars(&t)
}

} // verus!

verus! {

/// Appends the characters of `t` to `s`.
pub fn append_chars(s: &mut String, t: &Vec<char>)
    ensures
        final(s)@ == old(s)@ + t@,
{
    let mut i: usize = 0;
    while i < t.len()
        invariant
            i <= t@.len(),
            s@ == old(s)@ + t@.take(i as int),
        decreases t.len() - i,
    {
        push_char(s, t[i]);
        i = i + 1;
        assert(s@ =~= old(s)@ + t@.take(i as int));
    }
    assert(t@.take(t@.len() as int) =~= t@);
}

/// Appends `t` to `s`.
pub fn append_str(s: &mut String, t: &str)
    ensures
        final(s)@ == old(s)@ + t@,
{
    let tv = chars_of(t);
    append_chars(s, &tv);
}

/// A new string with the text of `t`.
pub fn string_from(t: &str) -> (s: String)
    ensures
        s@ == t@,
{
    let mut s = String::new();
    append_str(&mut s, t);
    assert(s@ =~= t@);
    s
}

} // verus!
