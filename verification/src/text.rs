//! Character-level text utilities used throughout the interface logic.

use vstd::prelude::*;
use vstd::string::*;
use vstd::multiset::Multiset;

verus! {

/// The Unicode `White_Space` property, as `char::is_whitespace` defines it.
pub open spec fn is_ws(c: char) -> bool {
    let u = c as u32;
    ||| (0x09 <= u && u <= 0x0d)
    ||| u == 0x20
    ||| u == 0x85
    ||| u == 0xa0
    ||| u == 0x1680
    ||| (0x2000 <= u && u <= 0x200a)
    ||| u == 0x2028
    ||| u == 0x2029
    ||| u == 0x202f
    ||| u == 0x205f
    ||| u == 0x3000
}

/// Whether `c` is Unicode white space.
pub fn is_whitespace(c: char) -> (b: bool)
    ensures
        b == is_ws(c),
{
    let u = c as u32;
    (0x09 <= u && u <= 0x0d) || u == 0x20 || u == 0x85 || u == 0xa0 || u == 0x1680 || (0x2000
        <= u && u <= 0x200a) || u == 0x2028 || u == 0x2029 || u == 0x202f || u == 0x205f || u
        == 0x3000
}

/// `s` without its leading white space.
pub open spec fn trim_front(s: Seq<char>) -> Seq<char>
    decreases s.len(),
{
    if s.len() > 0 && is_ws(s[0]) {
        trim_front(s.subrange(1, s.len() as int))
    } else {
        s
    }
}

/// `s` without its trailing white space.
pub open spec fn trim_back(s: Seq<char>) -> Seq<char>
    decreases s.len(),
{
    if s.len() > 0 && is_ws(s[s.len() - 1]) {
        trim_back(s.subrange(0, s.len() - 1))
    } else {
        s
    }
}

/// `s` without leading and trailing white space, as `str::trim` gives it.
pub open spec fn trimmed(s: Seq<char>) -> Seq<char> {
    trim_back(trim_front(s))
}

proof fn lemma_trim_front_head(s: Seq<char>)
    ensures
        trim_front(s).len() == 0 || !is_ws(trim_front(s)[0]),
    decreases s.len(),
{
    if s.len() > 0 && is_ws(s[0]) {
        lemma_trim_front_head(s.subrange(1, s.len() as int));
    }
}

proof fn lemma_trim_back_prefix(s: Seq<char>)
    ensures
        trim_back(s).len() <= s.len(),
        trim_back(s) == s.subrange(0, trim_back(s).len() as int),
        trim_back(s).len() == 0 || !is_ws(trim_back(s)[trim_back(s).len() - 1]),
    decreases s.len(),
{
    if s.len() > 0 && is_ws(s[s.len() - 1]) {
        let t = s.subrange(0, s.len() - 1);
        lemma_trim_back_prefix(t);
        assert(trim_back(s) == trim_back(t));
        assert(t.subrange(0, trim_back(t).len() as int) =~= s.subrange(0, trim_back(t).len() as int));
    } else {
        assert(s.subrange(0, s.len() as int) =~= s);
    }
}

/// Trimming twice is trimming once.
pub proof fn lemma_trimmed_idempotent(s: Seq<char>)
    ensures
        trimmed(trimmed(s)) == trimmed(s),
{
    let f = trim_front(s);
    let u = trim_back(f);
    lemma_trim_front_head(s);
    lemma_trim_back_prefix(f);
    if u.len() > 0 {
        assert(u[0] == f[0]);
    }
    assert(trim_front(u) == u);
    assert(trim_back(u) == u);
}

/// Appends one character to a string (`String::push`).
#[verifier::external_body]
pub(crate) fn push_char(s: &mut String, c: char)
    ensures
        final(s)@ == old(s)@.push(c),
{
    s.push(c);
}

/// The characters of `s`, in order.
pub fn chars_of(s: &str) -> (v: Vec<char>)
    ensures
        v@ == s@,
{
    let n = s.unicode_len();
    let mut v: Vec<char> = Vec::new();
    let mut i: usize = 0;
    while i < n
        invariant
            n == s@.len(),
            i <= n,
            v@ == s@.subrange(0, i as int),
        decreases n - i,
    {
        let c = s.get_char(i);
        v.push(c);
        i = i + 1;
        assert(v@ =~= s@.subrange(0, i as int));
    }
    assert(v@ =~= s@);
    v
}

/// The string made of the characters `v[from..to]`.
pub fn string_from_range(v: &Vec<char>, from: usize, to: usize) -> (s: String)
    requires
        from <= to <= v.len(),
    ensures
        s@ == v@.subrange(from as int, to as int),
{
    let mut s = String::new();
    let mut i: usize = from;
    while i < to
        invariant
            from <= i <= to <= v.len(),
            s@ == v@.subrange(from as int, i as int),
        decreases to - i,
    {
        push_char(&mut s, v[i]);
        i = i + 1;
        assert(s@ =~= v@.subrange(from as int, i as int));
    }
    s
}

/// The string made of the characters of `v`.
pub fn string_from_chars(v: &Vec<char>) -> (s: String)
    ensures
        s@ == v@,
{
    let s = string_from_range(v, 0, v.len());
    assert(v@.subrange(0, v@.len() as int) =~= v@);
    s
}

proof fn lemma_trim_front_step(s: Seq<char>, i: int)
    requires
        0 <= i < s.len(),
        is_ws(s[i]),
    ensures
        trim_front(s.subrange(i, s.len() as int)) == trim_front(s.subrange(i + 1, s.len() as int)),
{
    let t = s.subrange(i, s.len() as int);
    assert(t.subrange(1, t.len() as int) =~= s.subrange(i + 1, s.len() as int));
}

proof fn lemma_trim_back_step(s: Seq<char>, j: int)
    requires
        0 < j <= s.len(),
        is_ws(s[j - 1]),
    ensures
        trim_back(s.subrange(0, j)) == trim_back(s.subrange(0, j - 1)),
{
    let t = s.subrange(0, j);
    assert(t.subrange(0, t.len() - 1) =~= s.subrange(0, j - 1));
}

/// The bounds `(start, end)` of `v` without its surrounding white space.
pub fn trim_bounds(v: &Vec<char>) -> (r: (usize, usize))
    ensures
        r.0 <= r.1 <= v.len(),
        v@.subrange(r.0 as int, r.1 as int) == trimmed(v@),
{
    let n = v.len();
    let mut i: usize = 0;
    assert(v@.subrange(0, n as int) =~= v@);
    while i < n && is_whitespace(v[i])
        invariant
            n == v.len(),
            i <= n,
            trim_front(v@) == trim_front(v@.subrange(i as int, n as int)),
        decreases n - i,
    {
        proof {
            lemma_trim_front_step(v@, i as int);
        }
        i = i + 1;
    }
    let ghost front = v@.subrange(i as int, n as int);
    assert(trim_front(front) == front);
    let mut j: usize = n;
    assert(front.subrange(0, front.len() as int) =~= front);
    while j > i && is_whitespace(v[j - 1])
        invariant
            n == v.len(),
            i <= j <= n,
            front == v@.subrange(i as int, n as int),
            trim_back(front) == trim_back(v@.subrange(i as int, j as int)),
        decreases j,
    {
        proof {
            let w = v@.subrange(i as int, j as int);
            assert(w[w.len() - 1] == v@[j - 1]);
            lemma_trim_back_step(w, w.len() as int);
            assert(w.subrange(0, w.len() - 1) =~= v@.subrange(i as int, j - 1));
        }
        j = j - 1;
    }
    let ghost w = v@.subrange(i as int, j as int);
    assert(trim_back(w) == w);
    (i, j)
}

/// `s` without surrounding white space (`str::trim`).
pub fn trim(s: &str) -> (r: String)
    ensures
        r@ == trimmed(s@),
{
    let v = chars_of(s);
    let (a, b) = trim_bounds(&v);
    string_from_range(&v, a, b)
}

/// Whether `s` holds only white space.
pub fn is_blank(s: &str) -> (b: bool)
    ensures
        b == (trimmed(s@).len() == 0),
{
    let v = chars_of(s);
    let (a, b) = trim_bounds(&v);
    a == b
}


/// An owned copy of `s`.
pub fn owned(s: &str) -> (r: String)
    ensures
        r@ == s@,
{
    let v = chars_of(s);
    string_from_chars(&v)
}

/// Appends `t` to `s`.
pub fn push_str(s: &mut String, t: &str)
    ensures
        final(s)@ == old(s)@ + t@,
{
    let v = chars_of(t);
    let mut i: usize = 0;
    let ghost start = s@;
    while i < v.len()
        invariant
            i <= v.len(),
            v@ == t@,
            s@ == start + v@.subrange(0, i as int),
        decreases v.len() - i,
    {
        push_char(s, v[i]);
        i = i + 1;
        assert(s@ =~= start + v@.subrange(0, i as int));
    }
    assert(v@.subrange(0, v@.len() as int) =~= v@);
}

/// Whether two character sequences are equal, compared one character at a time.
pub fn chars_eq(a: &Vec<char>, b: &Vec<char>) -> (r: bool)
    ensures
        r == (a@ == b@),
{
    if a.len() != b.len() {
        return false;
    }
    let mut i: usize = 0;
    while i < a.len()
        invariant
            a.len() == b.len(),
            i <= a.len(),
            forall|k: int| 0 <= k < i ==> a@[k] == b@[k],
        decreases a.len() - i,
    {
        if a[i] != b[i] {
            return false;
        }
        i = i + 1;
    }
    assert(a@ =~= b@);
    true
}

/// Whether two string slices hold the same characters.
pub fn str_eq(a: &str, b: &str) -> (r: bool)
    ensures
        r == (a@ == b@),
{
    let va = chars_of(a);
    let vb = chars_of(b);
    chars_eq(&va, &vb)
}

/// Strict lexicographic order of character sequences by code point, which is
/// also the byte order of their UTF-8 encodings (the order of `String`).
pub open spec fn seq_lt(a: Seq<char>, b: Seq<char>) -> bool
    decreases a.len(),
{
    if a.len() == 0 {
        b.len() > 0
    } else if b.len() == 0 {
        false
    } else if a[0] != b[0] {
        (a[0] as u32) < (b[0] as u32)
    } else {
        seq_lt(a.subrange(1, a.len() as int), b.subrange(1, b.len() as int))
    }
}

proof fn lemma_seq_lt_skip(a: Seq<char>, b: Seq<char>, i: int)
    requires
        0 <= i < a.len(),
        i < b.len(),
        a[i] == b[i],
    ensures
        seq_lt(a.subrange(i, a.len() as int), b.subrange(i, b.len() as int)) == seq_lt(
            a.subrange(i + 1, a.len() as int),
            b.subrange(i + 1, b.len() as int),
        ),
{
    let x = a.subrange(i, a.len() as int);
    let y = b.subrange(i, b.len() as int);
    assert(x.subrange(1, x.len() as int) =~= a.subrange(i + 1, a.len() as int));
    assert(y.subrange(1, y.len() as int) =~= b.subrange(i + 1, b.len() as int));
}

proof fn lemma_char_code_injective(c1: char, c2: char)
    requires
        c1 != c2,
    ensures
        (c1 as u32) != (c2 as u32),
{
}

/// No sequence comes strictly before itself.
pub proof fn lemma_seq_lt_irreflexive(a: Seq<char>)
    ensures
        !seq_lt(a, a),
    decreases a.len(),
{
    if a.len() > 0 {
        lemma_seq_lt_irreflexive(a.subrange(1, a.len() as int));
    }
}

/// The lexicographic order is transitive.
pub proof fn lemma_seq_lt_transitive(a: Seq<char>, b: Seq<char>, c: Seq<char>)
    requires
        seq_lt(a, b),
        seq_lt(b, c),
    ensures
        seq_lt(a, c),
    decreases a.len(),
{
    if a.len() > 0 && b.len() > 0 && c.len() > 0 && a[0] == b[0] && b[0] == c[0] {
        lemma_seq_lt_transitive(
            a.subrange(1, a.len() as int),
            b.subrange(1, b.len() as int),
            c.subrange(1, c.len() as int),
        );
    }
}

/// Of two different sequences, one comes strictly before the other.
pub proof fn lemma_seq_lt_total(a: Seq<char>, b: Seq<char>)
    ensures
        a == b || seq_lt(a, b) || seq_lt(b, a),
    decreases a.len(),
{
    if a.len() > 0 && b.len() > 0 && a[0] == b[0] {
        let ta = a.subrange(1, a.len() as int);
        let tb = b.subrange(1, b.len() as int);
        lemma_seq_lt_total(ta, tb);
        if ta == tb {
            assert(a =~= seq![a[0]] + ta);
            assert(b =~= seq![b[0]] + tb);
        }
    } else if a.len() == 0 && b.len() == 0 {
        assert(a =~= b);
    } else if a.len() > 0 && b.len() > 0 {
        lemma_char_code_injective(a[0], b[0]);
    }
}

/// Whether `a` comes strictly before `b` in lexicographic order.
pub fn chars_less(a: &Vec<char>, b: &Vec<char>) -> (r: bool)
    ensures
        r == seq_lt(a@, b@),
{
    let mut i: usize = 0;
    assert(a@.subrange(0, a@.len() as int) =~= a@);
    assert(b@.subrange(0, b@.len() as int) =~= b@);
    while i < a.len() && i < b.len() && a[i] == b[i]
        invariant
            i <= a.len(),
            i <= b.len(),
            seq_lt(a@, b@) == seq_lt(
                a@.subrange(i as int, a@.len() as int),
                b@.subrange(i as int, b@.len() as int),
            ),
        decreases a.len() - i,
    {
        proof {
            lemma_seq_lt_skip(a@, b@, i as int);
        }
        i = i + 1;
    }
    if i == a.len() {
        i < b.len()
    } else if i == b.len() {
        false
    } else {
        (a[i] as u32) < (b[i] as u32)
    }
}

/// Whether `a` comes strictly before `b` in lexicographic order.
pub fn str_less(a: &str, b: &str) -> (r: bool)
    ensures
        r == seq_lt(a@, b@),
{
    let va = chars_of(a);
    let vb = chars_of(b);
    chars_less(&va, &vb)
}

/// The strings of `v`, as character sequences.
pub open spec fn string_views(v: Seq<String>) -> Seq<Seq<char>> {
    v.map_values(|s: String| s@)
}

/// No element of `s` comes strictly before an earlier one.
pub open spec fn nondecreasing(s: Seq<Seq<char>>) -> bool {
    forall|i: int, j: int| 0 <= i < j < s.len() ==> !seq_lt(#[trigger] s[j], #[trigger] s[i])
}

/// The strings of `v` in lexicographic order, as `sort` orders `String`s.
pub fn sort_strings(v: Vec<String>) -> (out: Vec<String>)
    ensures
        nondecreasing(string_views(out@)),
        string_views(out@).to_multiset() == string_views(v@).to_multiset(),
{
    let ghost all = string_views(v@);
    let mut rest = v;
    let mut out: Vec<String> = Vec::new();
    assert(string_views(out@) =~= Seq::<Seq<char>>::empty());
    proof {
        broadcast use vstd::multiset::group_multiset_axioms;
        broadcast use vstd::seq_lib::group_to_multiset_ensures;
        assert(string_views(out@).to_multiset() =~= Multiset::empty());
        assert(Multiset::<Seq<char>>::empty().add(all.to_multiset()) =~= all.to_multiset());
    }
    while rest.len() > 0
        invariant
            nondecreasing(string_views(out@)),
            forall|i: int, j: int| 0 <= i < out@.len() && 0 <= j < rest@.len() ==> !seq_lt(
                #[trigger] rest@[j]@,
                #[trigger] out@[i]@,
            ),
            string_views(out@).to_multiset().add(string_views(rest@).to_multiset())
                == all.to_multiset(),
        decreases rest.len(),
    {
        let mut best: usize = 0;
        let mut k: usize = 1;
        proof {
            lemma_seq_lt_irreflexive(rest@[0]@);
        }
        while k < rest.len()
            invariant
                0 <= best < k <= rest.len(),
                forall|j: int| 0 <= j < k ==> !seq_lt(#[trigger] rest@[j]@, rest@[best as int]@),
            decreases rest.len() - k,
        {
            if str_less(rest[k].as_str(), rest[best].as_str()) {
                proof {
                    assert forall|j: int| 0 <= j < k + 1 implies !seq_lt(#[trigger] rest@[j]@, rest@[k as int]@) by {
                        if j == k {
                            lemma_seq_lt_irreflexive(rest@[k as int]@);
                        } else if seq_lt(rest@[j]@, rest@[k as int]@) {
                            lemma_seq_lt_transitive(rest@[j]@, rest@[k as int]@, rest@[best as int]@);
                        }
                    }
                }
                best = k;
            }
            k = k + 1;
        }
        let ghost before_rest = rest@;
        let ghost before_out = out@;
        let x = rest.remove(best);
        out.push(x);
        proof {
            let rv = string_views(before_rest);
            let ov = string_views(before_out);
            assert(string_views(rest@) =~= rv.remove(best as int));
            assert(string_views(out@) =~= ov.push(rv[best as int]));
            broadcast use vstd::multiset::group_multiset_axioms;
            vstd::seq_lib::to_multiset_remove(rv, best as int);
            vstd::seq_lib::to_multiset_build(ov, rv[best as int]);
            vstd::seq_lib::to_multiset_contains(rv, rv[best as int]);
            assert(string_views(out@).to_multiset().add(string_views(rest@).to_multiset())
                =~= ov.to_multiset().add(rv.to_multiset()));
            assert forall|i: int, j: int| 0 <= i < j < out@.len() implies !seq_lt(
                #[trigger] string_views(out@)[j],
                #[trigger] string_views(out@)[i],
            ) by {
                if j == out@.len() - 1 {
                    assert(out@[j] == before_rest[best as int]);
                    assert(out@[i] == before_out[i]);
                } else {
                    assert(out@[j] == before_out[j]);
                    assert(out@[i] == before_out[i]);
                    assert(ov[i] == before_out[i]@ && ov[j] == before_out[j]@);
                }
            }
            assert forall|i: int, j: int| 0 <= i < out@.len() && 0 <= j < rest@.len() implies !seq_lt(
                #[trigger] rest@[j]@,
                #[trigger] out@[i]@,
            ) by {
                let jj = if j < best { j } else { j + 1 };
                assert(rest@[j] == before_rest[jj]);
                if i == out@.len() - 1 {
                    assert(out@[i] == before_rest[best as int]);
                } else {
                    assert(out@[i] == before_out[i]);
                }
            }
        }
    }
    proof {
        broadcast use vstd::multiset::group_multiset_axioms;
        broadcast use vstd::seq_lib::group_to_multiset_ensures;
        assert(string_views(rest@) =~= Seq::<Seq<char>>::empty());
        assert(string_views(rest@).to_multiset() =~= Multiset::empty());
        assert(string_views(out@).to_multiset().add(Multiset::empty()) =~= string_views(out@).to_multiset());
    }
    out
}

/// The decimal digit character for `d < 10`.
pub open spec fn digit_char(d: nat) -> char {
    ((48 + d) as u32) as char
}

/// The decimal representation of `n`, without leading zeros.
pub open spec fn dec(n: nat) -> Seq<char>
    decreases n,
{
    if n < 10 {
        seq![digit_char(n)]
    } else {
        dec(n / 10).push(digit_char(n % 10))
    }
}

/// The decimal representation of an integer, with `-` before negative values.
pub open spec fn int_dec(i: int) -> Seq<char> {
    if i < 0 {
        seq!['-'] + dec((-i) as nat)
    } else {
        dec(i as nat)
    }
}

fn digit_of(d: u64) -> (c: char)
    requires
        d < 10,
    ensures
        c == digit_char(d as nat),
{
    let code: u8 = 48 + (d as u8);
    code as char
}

/// Appends the decimal representation of `n`.
pub fn push_decimal(s: &mut String, n: u64)
    ensures
        final(s)@ == old(s)@ + dec(n as nat),
    decreases n,
{
    if n >= 10 {
        push_decimal(s, n / 10);
    }
    let c = digit_of(n % 10);
    push_char(s, c);
    assert(final(s)@ =~= old(s)@ + dec(n as nat));
}

/// The decimal representation of `n` (`u64::to_string`).
pub fn u64_to_string(n: u64) -> (s: String)
    ensures
        s@ == dec(n as nat),
{
    let mut s = String::new();
    push_decimal(&mut s, n);
    assert(s@ =~= dec(n as nat));
    s
}

/// The decimal representation of `n` (`i64::to_string`).
pub fn i64_to_string(n: i64) -> (s: String)
    ensures
        s@ == int_dec(n as int),
{
    let mut s = String::new();
    if n < 0 {
        push_char(&mut s, '-');
        let m: u64 = if n == i64::MIN {
            9223372036854775808u64
        } else {
            (-n) as u64
        };
        push_decimal(&mut s, m);
    } else {
        push_decimal(&mut s, n as u64);
    }
    assert(s@ =~= int_dec(n as int));
    s
}

/// Whether every character of `s` is an ASCII digit.
pub open spec fn all_digits(s: Seq<char>) -> bool {
    forall|i: int| 0 <= i < s.len() ==> '0' <= #[trigger] s[i] && s[i] <= '9'
}

/// The value of a run of decimal digits.
pub open spec fn digits_value(s: Seq<char>) -> nat
    decreases s.len(),
{
    if s.len() == 0 {
        0
    } else {
        digits_value(s.subrange(0, s.len() - 1)) * 10 + ((s[s.len() - 1] as u32) - 48) as nat
    }
}

/// The integer written by `s`: an optional `+` or `-` followed by at least one digit.
pub open spec fn parse_int(s: Seq<char>) -> Option<int> {
    if s.len() > 0 && (s[0] == '+' || s[0] == '-') {
        let body = s.subrange(1, s.len() as int);
        if body.len() > 0 && all_digits(body) {
            if s[0] == '-' {
                Some(-(digits_value(body) as int))
            } else {
                Some(digits_value(body) as int)
            }
        } else {
            None
        }
    } else if s.len() > 0 && all_digits(s) {
        Some(digits_value(s) as int)
    } else {
        None
    }
}

/// What `str::parse::<i32>` gives: the value when it is written and fits in `i32`.
pub open spec fn parse_i32(s: Seq<char>) -> Option<i32> {
    match parse_int(s) {
        Some(v) => if i32::MIN <= v <= i32::MAX {
            Some(v as i32)
        } else {
            None
        },
        None => None,
    }
}

proof fn lemma_digits_value_grows(s: Seq<char>, k: int)
    requires
        0 <= k <= s.len(),
        all_digits(s),
    ensures
        digits_value(s.subrange(0, k)) <= digits_value(s),
    decreases s.len() - k,
{
    if k < s.len() {
        let t = s.subrange(0, k + 1);
        assert(t.subrange(0, t.len() - 1) =~= s.subrange(0, k));
        assert('0' <= s[k]);
        lemma_digits_value_grows(s, k + 1);
        if k + 1 == s.len() {
            assert(t =~= s);
        }
    } else {
        assert(s.subrange(0, k) =~= s);
    }
}

/// The value of the digits `v[from..]`, or `None` when it exceeds `limit`.
fn digits_upto(v: &Vec<char>, from: usize, limit: u64) -> (r: Option<u64>)
    requires
        from <= v.len(),
        all_digits(v@.subrange(from as int, v@.len() as int)),
        limit < 0x1_0000_0000,
    ensures
        match r {
            Some(x) => x as nat == digits_value(v@.subrange(from as int, v@.len() as int))
                && x <= limit,
            None => digits_value(v@.subrange(from as int, v@.len() as int)) > limit,
        },
{
    let ghost body = v@.subrange(from as int, v@.len() as int);
    let mut acc: u64 = 0;
    let mut i: usize = from;
    assert(body.subrange(0, 0) =~= Seq::<char>::empty());
    while i < v.len()
        invariant
            from <= i <= v.len(),
            body == v@.subrange(from as int, v@.len() as int),
            all_digits(body),
            limit < 0x1_0000_0000,
            acc <= limit,
            acc as nat == digits_value(body.subrange(0, i - from)),
        decreases v.len() - i,
    {
        let c = v[i];
        assert(c == body[i - from]);
        let d: u64 = (c as u32 - 48) as u64;
        let next = acc * 10 + d;
        let ghost t = body.subrange(0, i - from + 1);
        assert(t.subrange(0, t.len() - 1) =~= body.subrange(0, i - from));
        if next > limit {
            proof {
                lemma_digits_value_grows(body, i - from + 1);
            }
            return None;
        }
        acc = next;
        i = i + 1;
    }
    assert(body.subrange(0, body.len() as int) =~= body);
    Some(acc)
}

/// Parses a decimal `i32` exactly as `str::parse::<i32>` accepts it.
pub fn parse_i32_chars(v: &Vec<char>) -> (r: Option<i32>)
    ensures
        r == parse_i32(v@),
{
    if v.len() == 0 {
        return None;
    }
    let signed = v[0] == '+' || v[0] == '-';
    let from: usize = if signed { 1 } else { 0 };
    if from >= v.len() {
        return None;
    }
    let mut k: usize = from;
    while k < v.len()
        invariant
            v.len() > 0,
            signed == (v@[0] == '+' || v@[0] == '-'),
            from == (if signed { 1usize } else { 0usize }),
            from <= k <= v.len(),
            forall|j: int| from <= j < k ==> '0' <= #[trigger] v@[j] && v@[j] <= '9',
        decreases v.len() - k,
    {
        if !('0' <= v[k] && v[k] <= '9') {
            proof {
                let body = v@.subrange(from as int, v@.len() as int);
                assert(body[k - from] == v@[k as int]);
                if !signed {
                    assert(body =~= v@);
                }
            }
            return None;
        }
        k = k + 1;
    }
    let ghost body = v@.subrange(from as int, v@.len() as int);
    assert(all_digits(body)) by {
        assert forall|i: int| 0 <= i < body.len() implies '0' <= #[trigger] body[i] && body[i]
            <= '9' by {
            assert(body[i] == v@[i + from]);
        }
    }
    if !signed {
        assert(body =~= v@);
    }
    let negative = v[0] == '-';
    let limit: u64 = if negative { 2147483648 } else { 2147483647 };
    match digits_upto(v, from, limit) {
        None => None,
        Some(x) => {
            if negative {
                if x == 2147483648 {
                    Some(i32::MIN)
                } else {
                    Some(-(x as i32))
                }
            } else {
                Some(x as i32)
            }
        },
    }
}

/// Parses a decimal `i32` exactly as `str::parse::<i32>` accepts it.
pub fn parse_i32_str(s: &str) -> (r: Option<i32>)
    ensures
        r == parse_i32(s@),
{
    let v = chars_of(s);
    parse_i32_chars(&v)
}

/// Whether `needle` occurs in `hay` at position `pos`.
pub open spec fn occurs_at(hay: Seq<char>, pos: int, needle: Seq<char>) -> bool {
    0 <= pos && pos + needle.len() <= hay.len() && hay.subrange(pos, pos + needle.len())
        == needle
}

/// Whether `needle` occurs anywhere in `hay` (`str::contains`).
pub open spec fn contains_seq(hay: Seq<char>, needle: Seq<char>) -> bool {
    exists|pos: int| occurs_at(hay, pos, needle)
}

/// Whether `needle` occurs in `hay` at position `pos`.
pub fn chars_occur_at(hay: &Vec<char>, pos: usize, needle: &Vec<char>) -> (r: bool)
    ensures
        r == occurs_at(hay@, pos as int, needle@),
{
    if pos > hay.len() || needle.len() > hay.len() - pos {
        return false;
    }
    let mut i: usize = 0;
    while i < needle.len()
        invariant
            pos + needle.len() <= hay.len(),
            i <= needle.len(),
            forall|k: int| 0 <= k < i ==> hay@[pos + k] == needle@[k],
        decreases needle.len() - i,
    {
        if hay[pos + i] != needle[i] {
            assert(hay@.subrange(pos as int, pos + needle.len())[i as int] != needle@[i as int]);
            return false;
        }
        i = i + 1;
    }
    assert(hay@.subrange(pos as int, pos + needle.len()) =~= needle@);
    true
}

/// Whether `needle` occurs anywhere in `hay`.
pub fn chars_contain(hay: &Vec<char>, needle: &Vec<char>) -> (r: bool)
    ensures
        r == contains_seq(hay@, needle@),
{
    let mut pos: usize = 0;
    while pos < hay.len()
        invariant
            pos <= hay.len(),
            forall|p: int| 0 <= p < pos ==> !occurs_at(hay@, p, needle@),
        decreases hay.len() - pos,
    {
        if chars_occur_at(hay, pos, needle) {
            return true;
        }
        pos = pos + 1;
    }
    if needle.len() == 0 {
        assert(occurs_at(hay@, 0, needle@)) by {
            assert(hay@.subrange(0, 0) =~= needle@);
        }
        return true;
    }
    false
}

/// `s` with every occurrence of `from` replaced by `to`, scanning from the
/// left and not overlapping, as `str::replace` does; an empty `from` occurs
/// before every character and at the end.
pub open spec fn replaced(s: Seq<char>, from: Seq<char>, to: Seq<char>) -> Seq<char>
    decreases s.len(),
{
    if from.len() == 0 {
        if s.len() == 0 {
            to
        } else {
            to + seq![s[0]] + replaced(s.skip(1), from, to)
        }
    } else if s.len() < from.len() {
        s
    } else if s.take(from.len() as int) == from {
        to + replaced(s.skip(from.len() as int), from, to)
    } else {
        seq![s[0]] + replaced(s.skip(1), from, to)
    }
}

/// `s` with every occurrence of `from` replaced by `to`.
pub fn replace_all(s: &str, from: &str, to: &str) -> (r: String)
    ensures
        r@ == replaced(s@, from@, to@),
{
    let v = chars_of(s);
    let f = chars_of(from);
    if f.len() == 0 {
        let mut out = String::new();
        let mut i: usize = 0;
        assert(v@.skip(0) =~= v@);
        while i < v.len()
            invariant
                v@ == s@,
                f@ == from@,
                f@.len() == 0,
                i <= v.len(),
                out@ + replaced(v@.skip(i as int), f@, to@) == replaced(v@, f@, to@),
            decreases v.len() - i,
        {
            let ghost rest = v@.skip(i as int);
            assert(rest.skip(1) =~= v@.skip(i + 1));
            assert(rest[0] == v@[i as int]);
            let ghost before = out@;
            push_str(&mut out, to);
            push_char(&mut out, v[i]);
            assert(out@ + replaced(v@.skip(i + 1), f@, to@) =~= before + (to@ + seq![v@[i as int]] + replaced(
                rest.skip(1),
                f@,
                to@,
            )));
            i = i + 1;
        }
        assert(v@.skip(i as int) =~= Seq::<char>::empty());
        push_str(&mut out, to);
        return out;
    }
    let mut out = String::new();
    let mut i: usize = 0;
    assert(v@.skip(0) =~= v@);
    while i < v.len()
        invariant
            v@ == s@,
            f@ == from@,
            f@.len() > 0,
            i <= v.len(),
            out@ + replaced(v@.skip(i as int), f@, to@) == replaced(v@, f@, to@),
        decreases v.len() - i,
    {
        let ghost rest = v@.skip(i as int);
        if chars_occur_at(&v, i, &f) {
            assert(rest.take(f@.len() as int) =~= v@.subrange(i as int, i + f@.len()));
            assert(rest.skip(f@.len() as int) =~= v@.skip(i + f@.len()));
            let ghost before = out@;
            push_str(&mut out, to);
            assert(out@ + replaced(v@.skip(i + f@.len()), f@, to@) =~= before + (to@ + replaced(
                rest.skip(f@.len() as int),
                f@,
                to@,
            )));
            i = i + f.len();
        } else {
            proof {
                if rest.len() >= f@.len() {
                    assert(rest.take(f@.len() as int) =~= v@.subrange(i as int, i + f@.len()));
                }
            }
            assert(rest.skip(1) =~= v@.skip(i + 1));
            assert(rest[0] == v@[i as int]);
            let ghost before = out@;
            push_char(&mut out, v[i]);
            assert(out@ + replaced(v@.skip(i + 1), f@, to@) =~= before + (seq![v@[i as int]] + replaced(
                rest.skip(1),
                f@,
                to@,
            )));
            i = i + 1;
        }
    }
    assert(v@.skip(i as int) =~= Seq::<char>::empty());
    assert(out@ =~= out@ + replaced(v@.skip(i as int), f@, to@));
    out
}

/// The parts joined, with `sep` between two neighbours.
pub open spec fn joined_with(parts: Seq<Seq<char>>, sep: Seq<char>) -> Seq<char>
    decreases parts.len(),
{
    if parts.len() == 0 {
        Seq::empty()
    } else if parts.len() == 1 {
        parts[0]
    } else {
        joined_with(parts.drop_last(), sep) + sep + parts.last()
    }
}

/// The strings joined, with `sep` between two neighbours (`[String]::join`).
pub fn join_strings(parts: &Vec<String>, sep: &str) -> (s: String)
    ensures
        s@ == joined_with(parts@.map_values(|t: String| t@), sep@),
{
    let ghost ps = parts@.map_values(|t: String| t@);
    let mut s = String::new();
    let mut i: usize = 0;
    while i < parts.len()
        invariant
            ps == parts@.map_values(|t: String| t@),
            i <= parts.len(),
            s@ == joined_with(ps.take(i as int), sep@),
        decreases parts.len() - i,
    {
        let ghost pre = ps.take(i as int);
        assert(ps.take(i as int + 1).drop_last() =~= pre);
        assert(ps.take(i as int + 1).last() == parts@[i as int]@);
        if i > 0 {
            push_str(&mut s, sep);
        }
        push_str(&mut s, parts[i].as_str());
        if i == 0 {
            assert(ps.take(1)[0] == parts@[0]@);
            assert(s@ =~= joined_with(ps.take(1), sep@));
        } else {
            assert(s@ =~= joined_with(ps.take(i as int + 1), sep@));
        }
        i = i + 1;
    }
    assert(ps.take(ps.len() as int) =~= ps);
    s
}

/// Lexicographic order of equally long lists of texts.
pub open spec fn keys_less(a: Seq<Seq<char>>, b: Seq<Seq<char>>) -> bool
    decreases a.len(),
{
    if a.len() == 0 || b.len() == 0 {
        false
    } else {
        seq_lt(a[0], b[0]) || (a[0] == b[0] && keys_less(a.drop_first(), b.drop_first()))
    }
}

/// The lexicographic order of key lists is a strict order, total on lists of
/// the same length.
pub proof fn lemma_keys_less(a: Seq<Seq<char>>, b: Seq<Seq<char>>, c: Seq<Seq<char>>)
    ensures
        !keys_less(a, a),
        keys_less(a, b) && keys_less(b, c) ==> keys_less(a, c),
        a.len() == b.len() ==> (a == b || keys_less(a, b) || keys_less(b, a)),
    decreases a.len(),
{
    if a.len() > 0 {
        lemma_seq_lt_irreflexive(a[0]);
        lemma_keys_less(a.drop_first(), a.drop_first(), a.drop_first());
        if b.len() > 0 {
            lemma_seq_lt_total(a[0], b[0]);
            if c.len() > 0 {
                lemma_keys_less(a.drop_first(), b.drop_first(), c.drop_first());
                if seq_lt(a[0], b[0]) && seq_lt(b[0], c[0]) {
                    lemma_seq_lt_transitive(a[0], b[0], c[0]);
                }
            } else {
                lemma_keys_less(a.drop_first(), b.drop_first(), b.drop_first());
            }
            if a.len() == b.len() && a[0] == b[0] && a.drop_first() == b.drop_first() {
                assert(a =~= seq![a[0]] + a.drop_first());
                assert(b =~= seq![b[0]] + b.drop_first());
            }
        }
    } else if b.len() == 0 {
        assert(a =~= b);
    }
}

/// The decimal representation of `n` is a non-empty run of digits whose
/// value is `n`.
pub proof fn lemma_dec_digits(n: nat)
    ensures
        dec(n).len() > 0,
        all_digits(dec(n)),
        digits_value(dec(n)) == n,
    decreases n,
{
    let d = digit_char(n % 10);
    assert((d as u32) == 48 + n % 10);
    if n < 10 {
        let s = dec(n);
        assert(s.subrange(0, 0) =~= Seq::<char>::empty());
        assert(digits_value(Seq::<char>::empty()) == 0);
        assert(s[s.len() - 1] == d);
        assert(digits_value(s) == digits_value(s.subrange(0, 0)) * 10 + ((d as u32) - 48) as nat);
    } else {
        lemma_dec_digits(n / 10);
        let s = dec(n);
        assert(s.subrange(0, s.len() - 1) =~= dec(n / 10));
        assert(s[s.len() - 1] == d);
        assert(digits_value(s) == digits_value(dec(n / 10)) * 10 + ((d as u32) - 48) as nat);
        assert((n / 10) * 10 + n % 10 == n);
    }
}

/// Reading the decimal representation of `i` back gives `i`.
pub proof fn lemma_parse_int_dec(i: int)
    ensures
        parse_int(int_dec(i)) == Some(i),
{
    if i < 0 {
        let m = (-i) as nat;
        lemma_dec_digits(m);
        let s = int_dec(i);
        assert(s.subrange(1, s.len() as int) =~= dec(m));
    } else {
        lemma_dec_digits(i as nat);
    }
}

/// A text that neither starts nor ends with white space is its own trim.
pub proof fn lemma_trimmed_unchanged(s: Seq<char>)
    requires
        s.len() > 0,
        !is_ws(s[0]),
        !is_ws(s[s.len() - 1]),
    ensures
        trimmed(s) == s,
{
}

/// The decimal representation of an integer has no white space around it.
pub proof fn lemma_int_dec_trimmed(i: int)
    ensures
        trimmed(int_dec(i)) == int_dec(i),
{
    let s = int_dec(i);
    if i < 0 {
        lemma_dec_digits((-i) as nat);
        assert(s[s.len() - 1] == dec((-i) as nat)[dec((-i) as nat).len() - 1]);
    } else {
        lemma_dec_digits(i as nat);
    }
    lemma_trimmed_unchanged(s);
}

} // verus!
