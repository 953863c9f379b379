//! Name lists written as one string: comma-separated, each name trimmed of
//! surrounding whitespace, empty names dropped.
use vstd::prelude::*;
use vstd::string::*;

verus! {

/// Unicode `White_Space`, the set that `char::is_whitespace` tests for.
pub open spec fn is_space(c: char) -> bool {
    let u = c as u32;
    ||| 0x9 <= u <= 0xD
    ||| u == 0x20
    ||| u == 0x85
    ||| u == 0xA0
    ||| u == 0x1680
    ||| 0x2000 <= u <= 0x200A
    ||| u == 0x2028
    ||| u == 0x2029
    ||| u == 0x202F
    ||| u == 0x205F
    ||| u == 0x3000
}

/// The text with leading whitespace removed.
pub open spec fn trim_start(s: Seq<char>) -> Seq<char>
    decreases s.len(),
{
    if s.len() > 0 && is_space(s[0]) {
        trim_start(s.drop_first())
    } else {
        s
    }
}

/// The text with trailing whitespace removed.
pub open spec fn trim_end(s: Seq<char>) -> Seq<char>
    decreases s.len(),
{
    if s.len() > 0 && is_space(s.last()) {
        trim_end(s.drop_last())
    } else {
        s
    }
}

/// The text with whitespace removed at both ends.
pub open spec fn trim(s: Seq<char>) -> Seq<char> {
    trim_end(trim_start(s))
}

/// Index of the first comma, or the length when there is none.
pub open spec fn first_comma(s: Seq<char>) -> nat
    decreases s.len(),
{
    if s.len() == 0 {
        0
    } else if s[0] == ',' {
        0
    } else {
        1 + first_comma(s.drop_first())
    }
}

pub proof fn lemma_first_comma_bound(s: Seq<char>)
    ensures
        first_comma(s) <= s.len(),
        first_comma(s) < s.len() ==> s[first_comma(s) as int] == ',',
        forall|j: int| 0 <= j < first_comma(s) ==> s[j] != ',',
    decreases s.len(),
{
    if s.len() > 0 && s[0] != ',' {
        lemma_first_comma_bound(s.drop_first());
        assert forall|j: int| 0 <= j < first_comma(s) implies s[j] != ',' by {
            if j > 0 {
                assert(s[j] == s.drop_first()[j - 1]);
            }
        }
    }
}

/// The names listed in `s`: the comma-separated fields, trimmed, without
/// the empty ones.
pub open spec fn targets(s: Seq<char>) -> Seq<Seq<char>>
    decreases s.len(),
{
    let k = first_comma(s);
    let t = trim(s.take(k as int));
    let head = if t.len() > 0 {
        seq![t]
    } else {
        Seq::<Seq<char>>::empty()
    };
    if k >= s.len() {
        head
    } else {
        proof {
            lemma_first_comma_bound(s);
        }
        head + targets(s.skip(k + 1 as int))
    }
}

/// The views of a sequence of strings.
pub open spec fn views(v: Seq<String>) -> Seq<Seq<char>> {
    v.map_values(|x: String| x@)
}

/// Exec test for `is_space`.
pub fn is_space_char(c: char) -> (r: bool)
    ensures
        r == is_space(c),
{
    let u = c as u32;
    (0x9 <= u && u <= 0xD) || u == 0x20 || u == 0x85 || u == 0xA0 || u == 0x1680 || (0x2000 <= u
        && u <= 0x200A) || u == 0x2028 || u == 0x2029 || u == 0x202F || u == 0x205F || u == 0x3000
}

proof fn lemma_trim_start_at(s: Seq<char>, lo: int, a: int, hi: int)
    requires
        0 <= lo <= a <= hi <= s.len(),
        forall|j: int| lo <= j < a ==> is_space(s[j]),
        a == hi || !is_space(s[a]),
    ensures
        trim_start(s.subrange(lo, hi)) == s.subrange(a, hi),
    decreases a - lo,
{
    if lo < a {
        assert(s.subrange(lo, hi).drop_first() =~= s.subrange(lo + 1, hi));
        lemma_trim_start_at(s, lo + 1, a, hi);
    } else {
        assert(s.subrange(lo, hi) =~= s.subrange(a, hi));
    }
}

proof fn lemma_trim_end_at(s: Seq<char>, a: int, b: int, hi: int)
    requires
        0 <= a <= b <= hi <= s.len(),
        forall|j: int| b <= j < hi ==> is_space(s[j]),
        b == a || !is_space(s[b - 1]),
    ensures
        trim_end(s.subrange(a, hi)) == s.subrange(a, b),
    decreases hi - b,
{
    if b < hi {
        assert(s.subrange(a, hi).drop_last() =~= s.subrange(a, hi - 1));
        lemma_trim_end_at(s, a, b, hi - 1);
    } else {
        assert(s.subrange(a, hi) =~= s.subrange(a, b));
    }
}

proof fn lemma_first_comma_at(s: Seq<char>, k: int)
    requires
        0 <= k <= s.len(),
        forall|j: int| 0 <= j < k ==> s[j] != ',',
        k == s.len() || s[k] == ',',
    ensures
        first_comma(s) == k,
    decreases k,
{
    if k > 0 {
        lemma_first_comma_at(s.drop_first(), k - 1);
    }
}

/// A name as a list holds it: not empty, without commas, and without
/// whitespace at either end.
pub open spec fn clean_name(t: Seq<char>) -> bool {
    &&& t.len() > 0
    &&& forall|j: int| 0 <= j < t.len() ==> t[j] != ','
    &&& trim(t) == t
}

/// A leading space does not change the names a list holds.
pub proof fn lemma_targets_space(y: Seq<char>)
    ensures
        targets(seq![' '] + y) == targets(y),
{
    let s = seq![' '] + y;
    assert(s.drop_first() =~= y);
    lemma_first_comma_bound(y);
    let k = first_comma(y) as int;
    assert(first_comma(s) == 1 + k);
    assert(s.take(1 + k).drop_first() =~= y.take(k));
    assert(is_space(s.take(1 + k)[0]));
    assert(trim_start(s.take(1 + k)) == trim_start(y.take(k)));
    if k < y.len() {
        assert(s.skip(1 + k + 1) =~= y.skip(k + 1));
    }
}

/// A comma after a field without commas splits the list there.
pub proof fn lemma_targets_comma(x: Seq<char>, y: Seq<char>)
    requires
        forall|j: int| 0 <= j < x.len() ==> x[j] != ',',
    ensures
        targets(x + seq![','] + y) == targets(x) + targets(y),
{
    let s = x + seq![','] + y;
    lemma_first_comma_at(s, x.len() as int);
    lemma_first_comma_at(x, x.len() as int);
    assert(s.take(x.len() as int) =~= x);
    assert(x.take(x.len() as int) =~= x);
    assert(s.skip(x.len() as int + 1) =~= y);
}

/// A clean name, alone, is a list of that one name.
pub proof fn lemma_targets_single(t: Seq<char>)
    requires
        clean_name(t),
    ensures
        targets(t) == seq![t],
{
    lemma_first_comma_at(t, t.len() as int);
    assert(t.take(t.len() as int) =~= t);
}

/// Reads the characters of `s` into a vector.
pub(crate) fn chars_of(s: &str) -> (r: Vec<char>)
    ensures
        r@ == s@,
{
    let n = s.unicode_len();
    let mut r: Vec<char> = Vec::new();
    let mut i: usize = 0;
    while i < n
        invariant
            n == s@.len(),
            i <= n,
            r@ == s@.take(i as int),
        decreases n - i,
    {
        let c = s.get_char(i);
        r.push(c);
        i = i + 1;
        assert(r@ =~= s@.take(i as int));
    }
    assert(r@ =~= s@);
    r
}

/// Splits `s` at commas, trims each field and keeps the non-empty ones.
pub fn parse_targets(s: &str) -> (r: Vec<String>)
    ensures
        views(r@) == targets(s@),
{
    let cs = chars_of(s);
    let n = cs.len();
    let mut r: Vec<String> = Vec::new();
    let mut start: usize = 0;
    let ghost full = s@;
    proof {
        assert(full.subrange(0, n as int) =~= full);
        assert(views(r@) =~= Seq::<Seq<char>>::empty());
    }
    loop
        invariant
            cs@ == full,
            full == s@,
            n == full.len(),
            start <= n,
            views(r@) + targets(full.subrange(start as int, n as int)) == targets(full),
        decreases n - start,
    {
        let ghost rest = full.subrange(start as int, n as int);
        // find the end of the current field
        let mut k: usize = start;
        while k < n && cs[k] != ','
            invariant
                cs@ == full,
                n == full.len(),
                start <= k <= n,
                forall|j: int| start <= j < k ==> full[j] != ',',
            decreases n - k,
        {
            k = k + 1;
        }
        proof {
            lemma_first_comma_at(rest, k - start);
        }
        // trim the field [start, k)
        let mut a: usize = start;
        while a < k && is_space_char(cs[a])
            invariant
                cs@ == full,
                n == full.len(),
                start <= a <= k <= n,
                forall|j: int| start <= j < a ==> is_space(full[j]),
            decreases k - a,
        {
            a = a + 1;
        }
        let mut b: usize = k;
        while b > a && is_space_char(cs[b - 1])
            invariant
                cs@ == full,
                n == full.len(),
                start <= a <= b <= k <= n,
                forall|j: int| b <= j < k ==> is_space(full[j]),
            decreases b - a,
        {
            b = b - 1;
        }
        proof {
            lemma_trim_start_at(full, start as int, a as int, k as int);
            lemma_trim_end_at(full, a as int, b as int, k as int);
            assert(rest.take((k - start) as int) =~= full.subrange(start as int, k as int));
            assert(trim(rest.take((k - start) as int)) == full.subrange(a as int, b as int));
        }
        let ghost old_r = r@;
        if a < b {
            let piece = s.substring_char(a, b);
            let owned = piece.to_owned();
            r.push(owned);
            proof {
                assert(views(r@) =~= views(old_r).push(full.subrange(a as int, b as int)));
            }
        }
        if k >= n {
            proof {
                assert(views(r@) + targets(full.subrange(k as int, n as int)) == targets(full));
                assert(targets(full.subrange(n as int, n as int)) =~= Seq::<Seq<char>>::empty()) by {
                    assert(full.subrange(n as int, n as int).len() == 0);
                    assert(trim(full.subrange(n as int, n as int).take(0)) =~= Seq::<char>::empty());
                }
                assert(views(r@) =~= targets(full));
            }
            return r;
        }
        proof {
            assert(rest.skip((k - start) + 1) =~= full.subrange(k + 1, n as int));
        }
        start = k + 1;
    }
}

} // verus!

verus! {

/// The decimal digit character for `d < 10`.
pub open spec fn digit_char(d: nat) -> char {
    ('0' as u32 + d) as char
}

/// Decimal notation of `n`, as `usize`'s `Display` writes it.
pub open spec fn decimal(n: nat) -> Seq<char>
    decreases n,
{
    if n < 10 {
        seq![digit_char(n)]
    } else {
        decimal(n / 10).push(digit_char(n % 10))
    }
}

fn digit_text(d: usize) -> (r: &'static str)
    requires
        d < 10,
    ensures
        r@ == seq![digit_char(d as nat)],
{
    proof {
        reveal_strlit("0");
        reveal_strlit("1");
        reveal_strlit("2");
        reveal_strlit("3");
        reveal_strlit("4");
        reveal_strlit("5");
        reveal_strlit("6");
        reveal_strlit("7");
        reveal_strlit("8");
        reveal_strlit("9");
    }
    if d == 0 {
        "0"
    } else if d == 1 {
        "1"
    } else if d == 2 {
        "2"
    } else if d == 3 {
        "3"
    } else if d == 4 {
        "4"
    } else if d == 5 {
        "5"
    } else if d == 6 {
        "6"
    } else if d == 7 {
        "7"
    } else if d == 8 {
        "8"
    } else {
        "9"
    }
}

/// Writes `n` in decimal.
pub fn decimal_text(n: usize) -> (r: String)
    ensures
        r@ == decimal(n as nat),
    decreases n,
{
    if n < 10 {
        let mut r = String::new();
        r.append(digit_text(n));
        assert(r@ =~= decimal(n as nat));
        r
    } else {
        let mut r = decimal_text(n / 10);
        r.append(digit_text(n % 10));
        assert(r@ =~= decimal(n as nat));
        r
    }
}

} // verus!
