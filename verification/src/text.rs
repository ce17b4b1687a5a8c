//! Text helpers shared by report rendering: decimal numerals, Unicode blank
//! detection, lexicographic ordering and sorted name sets.

use vstd::prelude::*;
use vstd::string::StringExecFns;

verus! {

/// Unicode `White_Space` characters, the set that `char::is_whitespace` accepts.
pub open spec fn is_ws(c: char) -> bool {
    let u = c as u32;
    (0x9 <= u && u <= 0xd) || u == 0x20 || u == 0x85 || u == 0xa0 || u == 0x1680
        || (0x2000 <= u && u <= 0x200a) || u == 0x2028 || u == 0x2029 || u == 0x202f
        || u == 0x205f || u == 0x3000
}

/// A text is blank when trimming whitespace leaves nothing.
pub open spec fn is_blank(s: Seq<char>) -> bool {
    forall|i: int| 0 <= i < s.len() ==> is_ws(#[trigger] s[i])
}

/// Whether one character is Unicode whitespace.
pub fn char_is_ws(c: char) -> (r: bool)
    ensures
        r == is_ws(c),
{
    let u = c as u32;
    (0x9 <= u && u <= 0xd) || u == 0x20 || u == 0x85 || u == 0xa0 || u == 0x1680
        || (0x2000 <= u && u <= 0x200a) || u == 0x2028 || u == 0x2029 || u == 0x202f
        || u == 0x205f || u == 0x3000
}

/// Whether `s.trim()` is empty.
pub fn str_is_blank(s: &str) -> (r: bool)
    ensures
        r == is_blank(s@),
{
    let n = s.unicode_len();
    let mut i: usize = 0;
    while i < n
        invariant
            n == s@.len(),
            i <= n,
            forall|k: int| 0 <= k < i ==> is_ws(#[trigger] s@[k]),
        decreases n - i,
    {
        let c = s.get_char(i);
        if !char_is_ws(c) {
            return false;
        }
        i = i + 1;
    }
    true
}

/// Strict lexicographic order on texts, by code point, which is the order Rust's
/// `str` comparison gives (UTF-8 byte order preserves code point order).
pub open spec fn seq_lt(a: Seq<char>, b: Seq<char>) -> bool
    decreases a.len(),
{
    if a.len() == 0 {
        b.len() > 0
    } else if b.len() == 0 {
        false
    } else if a[0] != b[0] {
        (a[0] as int) < (b[0] as int)
    } else {
        seq_lt(a.drop_first(), b.drop_first())
    }
}

pub proof fn lemma_seq_lt_irreflexive(a: Seq<char>)
    ensures
        !seq_lt(a, a),
    decreases a.len(),
{
    if a.len() > 0 {
        lemma_seq_lt_irreflexive(a.drop_first());
    }
}

pub proof fn lemma_seq_lt_asymmetric(a: Seq<char>, b: Seq<char>)
    ensures
        !(seq_lt(a, b) && seq_lt(b, a)),
    decreases a.len(),
{
    if a.len() > 0 && b.len() > 0 && a[0] == b[0] {
        lemma_seq_lt_asymmetric(a.drop_first(), b.drop_first());
    }
}

pub proof fn lemma_seq_lt_total(a: Seq<char>, b: Seq<char>)
    ensures
        a != b ==> seq_lt(a, b) || seq_lt(b, a),
    decreases a.len(),
{
    if a.len() > 0 && b.len() > 0 && a[0] == b[0] {
        lemma_seq_lt_total(a.drop_first(), b.drop_first());
        if a.drop_first() == b.drop_first() {
            assert(a =~= seq![a[0]] + a.drop_first());
            assert(b =~= seq![b[0]] + b.drop_first());
        }
    } else if a.len() > 0 && b.len() > 0 {
        let x = a[0] as int;
        let y = b[0] as int;
        assert(x != y);
    } else if a.len() == 0 && b.len() == 0 {
        assert(a =~= b);
    }
}

pub proof fn lemma_seq_lt_transitive(a: Seq<char>, b: Seq<char>, c: Seq<char>)
    requires
        seq_lt(a, b),
        seq_lt(b, c),
    ensures
        seq_lt(a, c),
    decreases a.len(),
{
    if a.len() > 0 && b.len() > 0 && c.len() > 0 && a[0] == b[0] && b[0] == c[0] {
        lemma_seq_lt_transitive(a.drop_first(), b.drop_first(), c.drop_first());
    }
}

/// Exact lexicographic comparison of two texts.
pub fn str_lt(a: &str, b: &str) -> (r: bool)
    ensures
        r == seq_lt(a@, b@),
{
    let na = a.unicode_len();
    let nb = b.unicode_len();
    let mut i: usize = 0;
    assert(a@.skip(0) =~= a@);
    assert(b@.skip(0) =~= b@);
    while i < na && i < nb
        invariant
            na == a@.len(),
            nb == b@.len(),
            i <= na,
            i <= nb,
            seq_lt(a@, b@) == seq_lt(a@.skip(i as int), b@.skip(i as int)),
        decreases na - i,
    {
        let x = a.get_char(i);
        let y = b.get_char(i);
        assert(a@.skip(i as int)[0] == x);
        assert(b@.skip(i as int)[0] == y);
        if x != y {
            return (x as u32) < (y as u32);
        }
        assert(a@.skip(i as int).drop_first() =~= a@.skip(i + 1));
        assert(b@.skip(i as int).drop_first() =~= b@.skip(i + 1));
        i = i + 1;
    }
    i < nb
}


/// The numeral of one decimal digit.
pub open spec fn digit_text(d: nat) -> Seq<char> {
    if d == 0 {
        "0"@
    } else if d == 1 {
        "1"@
    } else if d == 2 {
        "2"@
    } else if d == 3 {
        "3"@
    } else if d == 4 {
        "4"@
    } else if d == 5 {
        "5"@
    } else if d == 6 {
        "6"@
    } else if d == 7 {
        "7"@
    } else if d == 8 {
        "8"@
    } else {
        "9"@
    }
}

/// The decimal numeral of `n`, as `format!("{n}")` writes it.
pub open spec fn decimal(n: nat) -> Seq<char>
    decreases n,
{
    if n < 10 {
        digit_text(n)
    } else {
        decimal(n / 10) + digit_text(n % 10)
    }
}

fn digit_str(d: usize) -> (r: &'static str)
    requires
        d < 10,
    ensures
        r@ == digit_text(d as nat),
{
    if d == 0 {
        "0"
    } else if d == 1 {
        "1"
    } else if d == 2 {
        "2"
    } else if d == 3 {
        "3"
    } else if d == 4 {
        "4"
    } else if d == 5 {
        "5"
    } else if d == 6 {
        "6"
    } else if d == 7 {
        "7"
    } else if d == 8 {
        "8"
    } else {
        "9"
    }
}

/// Decimal rendering of an unsigned integer.
pub fn usize_text(n: usize) -> (r: String)
    ensures
        r@ == decimal(n as nat),
    decreases n,
{
    let mut out = if n >= 10 {
        usize_text(n / 10)
    } else {
        String::new()
    };
    out.append(digit_str(n % 10));
    proof {
        if n < 10 {
            assert(out@ =~= digit_text(n as nat));
        }
    }
    out
}

/// Text of a literal or borrowed string as an owned `String`.
pub fn owned(s: &str) -> (r: String)
    ensures
        r@ == s@,
{
    let mut out = String::new();
    out.append(s);
    assert(out@ =~= s@);
    out
}

/// Exact text equality.
pub fn str_eq(a: &str, b: &str) -> (r: bool)
    ensures
        r == (a@ == b@),
{
    let na = a.unicode_len();
    let nb = b.unicode_len();
    if na != nb {
        return false;
    }
    let mut i: usize = 0;
    while i < na
        invariant
            na == a@.len(),
            nb == b@.len(),
            na == nb,
            i <= na,
            forall|k: int| 0 <= k < i ==> a@[k] == b@[k],
        decreases na - i,
    {
        if a.get_char(i) != b.get_char(i) {
            return false;
        }
        i = i + 1;
    }
    assert(a@ =~= b@);
    true
}

/// The texts of a list of strings.
pub open spec fn views(v: Seq<String>) -> Seq<Seq<char>> {
    v.map_values(|s: String| s@)
}

/// Strictly increasing in lexicographic order: sorted and free of duplicates.
pub open spec fn sorted_strict(s: Seq<Seq<char>>) -> bool {
    forall|i: int, j: int| 0 <= i < j < s.len() ==> seq_lt(#[trigger] s[i], #[trigger] s[j])
}

/// Whether a list of strings holds a given text.
pub fn contains_text(v: &Vec<String>, s: &str) -> (r: bool)
    ensures
        r == views(v@).contains(s@),
{
    let mut i: usize = 0;
    while i < v.len()
        invariant
            i <= v.len(),
            forall|k: int| 0 <= k < i ==> v@[k]@ != s@,
        decreases v.len() - i,
    {
        if str_eq(v[i].as_str(), s) {
            assert(views(v@)[i as int] == s@);
            return true;
        }
        i = i + 1;
    }
    proof {
        if views(v@).contains(s@) {
            let k = choose|k: int| 0 <= k < views(v@).len() && views(v@)[k] == s@;
            assert(v@[k]@ == s@);
        }
    }
    false
}

/// Insert a text into a sorted set of texts, keeping it sorted and duplicate-free.
pub fn insert_sorted(v: &mut Vec<String>, s: String)
    requires
        sorted_strict(views(old(v)@)),
    ensures
        sorted_strict(views(final(v)@)),
        views(final(v)@).to_set() == views(old(v)@).to_set().insert(s@),
        views(old(v)@).contains(s@) ==> final(v)@ == old(v)@,
{
    let ghost old_views = views(v@);
    let mut i: usize = 0;
    while i < v.len()
        invariant
            i <= v.len(),
            v@ == old(v)@,
            old_views == views(v@),
            sorted_strict(old_views),
            forall|k: int| 0 <= k < i ==> seq_lt(#[trigger] old_views[k], s@),
        ensures
            i <= v.len(),
            v@ == old(v)@,
            forall|k: int| 0 <= k < i ==> seq_lt(#[trigger] old_views[k], s@),
            i < v.len() ==> seq_lt(s@, old_views[i as int]),
        decreases v.len() - i,
    {
        if str_eq(v[i].as_str(), s.as_str()) {
            assert(old_views[i as int] == s@);
            assert(views(v@).to_set() =~= old_views.to_set().insert(s@));
            return;
        }
        if str_lt(s.as_str(), v[i].as_str()) {
            break;
        }
        proof {
            lemma_seq_lt_total(old_views[i as int], s@);
        }
        i = i + 1;
    }
    // every element before `i` is below `s`; every element from `i` on is above it
    proof {
        assert forall|k: int| i <= k < old_views.len() implies seq_lt(s@, #[trigger] old_views[k]) by {
            if k > i {
                lemma_seq_lt_transitive(s@, old_views[i as int], old_views[k]);
            }
        }
    }
    let ghost sv = s@;
    v.insert(i, s);
    proof {
        let nv = views(v@);
        assert(nv =~= old_views.insert(i as int, sv));
        assert forall|a: int, b: int| 0 <= a < b < nv.len() implies seq_lt(#[trigger] nv[a], #[trigger] nv[b]) by {
            if a < i && b == i {
            } else if a < i && b > i {
                assert(nv[b] == old_views[b - 1]);
                lemma_seq_lt_transitive(nv[a], sv, nv[b]);
            } else if a == i {
                assert(nv[b] == old_views[b - 1]);
            } else if a > i {
                assert(nv[a] == old_views[a - 1]);
                assert(nv[b] == old_views[b - 1]);
            }
        }
        assert forall|x: Seq<char>| nv.to_set().contains(x) == old_views.to_set().insert(sv).contains(x) by {
            if nv.to_set().contains(x) {
                let k = choose|k: int| 0 <= k < nv.len() && nv[k] == x;
                if k < i {
                    assert(old_views[k] == x);
                } else if k > i {
                    assert(old_views[k - 1] == x);
                }
            }
            if old_views.contains(x) {
                let k = choose|k: int| 0 <= k < old_views.len() && old_views[k] == x;
                if k < i {
                    assert(nv[k] == x);
                } else {
                    assert(nv[k + 1] == x);
                }
            }
            if x == sv {
                assert(nv[i as int] == x);
            }
        }
        assert(nv.to_set() =~= old_views.to_set().insert(sv));
        if old_views.contains(sv) {
            let k = choose|k: int| 0 <= k < old_views.len() && old_views[k] == sv;
            lemma_seq_lt_irreflexive(sv);
            if k < i {
            } else {
            }
        }
    }
}

/// Texts joined with a separator, as `slice::join` gives them.
pub open spec fn join(s: Seq<Seq<char>>, sep: Seq<char>) -> Seq<char>
    decreases s.len(),
{
    if s.len() == 0 {
        Seq::empty()
    } else if s.len() == 1 {
        s[0]
    } else {
        join(s.drop_last(), sep) + sep + s.last()
    }
}

/// Join strings with a separator.
pub fn join_strings(v: &Vec<String>, sep: &str) -> (r: String)
    ensures
        r@ == join(views(v@), sep@),
{
    let mut out = String::new();
    let mut i: usize = 0;
    while i < v.len()
        invariant
            i <= v.len(),
            out@ == join(views(v@).take(i as int), sep@),
        decreases v.len() - i,
    {
        proof {
            assert(views(v@).take(i + 1).drop_last() =~= views(v@).take(i as int));
        }
        if i > 0 {
            out.append(sep);
        }
        out.append(v[i].as_str());
        i = i + 1;
        proof {
            if i == 1 {
                assert(out@ =~= views(v@).take(1)[0]);
            }
        }
    }
    assert(views(v@).take(v.len() as int) =~= views(v@));
    out
}


/// A copy of a list of strings.
pub fn clone_strings(v: &Vec<String>) -> (r: Vec<String>)
    ensures
        views(r@) == views(v@),
{
    let mut out: Vec<String> = Vec::new();
    let mut i: usize = 0;
    while i < v.len()
        invariant
            i <= v.len(),
            views(out@) == views(v@).take(i as int),
        decreases v.len() - i,
    {
        let ghost prev = views(out@);
        out.push(v[i].clone());
        assert(views(out@) =~= prev.push(v@[i as int]@));
        assert(views(v@).take(i + 1) =~= views(v@).take(i as int).push(views(v@)[i as int]));
        i = i + 1;
    }
    assert(views(v@).take(v.len() as int) =~= views(v@));
    out
}

/// Add every text of `b` to the sorted set `a`.
pub fn union_into(a: &mut Vec<String>, b: &Vec<String>)
    requires
        sorted_strict(views(old(a)@)),
    ensures
        sorted_strict(views(final(a)@)),
        views(final(a)@).to_set() == views(old(a)@).to_set().union(views(b@).to_set()),
{
    let mut i: usize = 0;
    while i < b.len()
        invariant
            i <= b.len(),
            sorted_strict(views(a@)),
            views(a@).to_set() == views(old(a)@).to_set().union(views(b@).take(i as int).to_set()),
        decreases b.len() - i,
    {
        insert_sorted(a, b[i].clone());
        proof {
            assert(views(b@).take(i + 1) =~= views(b@).take(i as int).push(views(b@)[i as int]));
            views(b@).take(i as int).lemma_push_to_set_commute(views(b@)[i as int]);
        }
        i = i + 1;
    }
    assert(views(b@).take(b.len() as int) =~= views(b@));
}

/// The texts of the sorted set `a` that `b` holds (`keep`) or lacks (`!keep`), sorted.
pub fn filter_sorted(a: &Vec<String>, b: &Vec<String>, keep: bool) -> (r: Vec<String>)
    ensures
        sorted_strict(views(r@)),
        keep ==> views(r@).to_set() == views(a@).to_set().intersect(views(b@).to_set()),
        !keep ==> views(r@).to_set() == views(a@).to_set().difference(views(b@).to_set()),
{
    let mut out: Vec<String> = Vec::new();
    let mut i: usize = 0;
    let ghost sb = views(b@).to_set();
    proof {
        assert(views(out@).to_set() =~= Set::<Seq<char>>::empty());
        assert(views(a@).take(0).to_set() =~= Set::<Seq<char>>::empty());
    }
    while i < a.len()
        invariant
            i <= a.len(),
            sb == views(b@).to_set(),
            sorted_strict(views(out@)),
            keep ==> views(out@).to_set() == views(a@).take(i as int).to_set().intersect(sb),
            !keep ==> views(out@).to_set() == views(a@).take(i as int).to_set().difference(sb),
        decreases a.len() - i,
    {
        let inside = contains_text(b, a[i].as_str());
        if inside == keep {
            insert_sorted(&mut out, a[i].clone());
        }
        proof {
            let x = views(a@)[i as int];
            assert(views(a@).take(i + 1) =~= views(a@).take(i as int).push(x));
            views(a@).take(i as int).lemma_push_to_set_commute(x);
            assert(inside == sb.contains(x));
            if keep {
                assert(views(out@).to_set() =~= views(a@).take(i + 1).to_set().intersect(sb));
            } else {
                assert(views(out@).to_set() =~= views(a@).take(i + 1).to_set().difference(sb));
            }
        }
        i = i + 1;
    }
    assert(views(a@).take(a.len() as int) =~= views(a@));
    out
}


/// A list of unsigned integers as `{:?}` writes it: `[4, 3]`.
pub open spec fn usize_list_text(s: Seq<usize>) -> Seq<char> {
    "["@ + join(s.map_values(|n: usize| decimal(n as nat)), ", "@) + "]"@
}

/// Render a list of unsigned integers as `{:?}` does.
pub fn usize_list_string(v: &[usize]) -> (r: String)
    ensures
        r@ == usize_list_text(v@),
{
    let ghost ds = v@.map_values(|n: usize| decimal(n as nat));
    let mut body = String::new();
    let mut i: usize = 0;
    while i < v.len()
        invariant
            i <= v.len(),
            ds == v@.map_values(|n: usize| decimal(n as nat)),
            body@ == join(ds.take(i as int), ", "@),
        decreases v.len() - i,
    {
        proof {
            assert(ds.take(i + 1).drop_last() =~= ds.take(i as int));
        }
        if i > 0 {
            body.append(", ");
        }
        let d = usize_text(v[i]);
        body.append(d.as_str());
        i = i + 1;
        proof {
            if i == 1 {
                assert(body@ =~= ds.take(1)[0]);
            }
        }
    }
    assert(ds.take(v.len() as int) =~= ds);
    let mut out = owned("[");
    out.append(body.as_str());
    out.append("]");
    out
}


/// The decimal numeral of a signed integer, with a leading minus when negative.
pub open spec fn int_text(i: int) -> Seq<char> {
    if i < 0 {
        "-"@ + decimal((-i) as nat)
    } else {
        decimal(i as nat)
    }
}

/// Decimal rendering of a signed integer.
pub fn isize_text(n: isize) -> (r: String)
    ensures
        r@ == int_text(n as int),
{
    if n < 0 {
        let m: i128 = n as i128;
        let a: i128 = 0 - m;
        assert(a <= usize::MAX);
        let digits = usize_text(a as usize);
        let mut out = owned("-");
        out.append(digits.as_str());
        out
    } else {
        usize_text(n as usize)
    }
}

/// Decimal rendering of a 64-bit signed integer.
pub fn i64_text(n: i64) -> (r: String)
    ensures
        r@ == int_text(n as int),
{
    if n < 0 {
        let m: i128 = n as i128;
        let a: i128 = 0 - m;
        let digits = u64_text(a as u64);
        let mut out = owned("-");
        out.append(digits.as_str());
        out
    } else {
        u64_text(n as u64)
    }
}

/// Decimal rendering of a 64-bit unsigned integer.
pub fn u64_text(n: u64) -> (r: String)
    ensures
        r@ == decimal(n as nat),
    decreases n,
{
    let mut out = if n >= 10 {
        u64_text(n / 10)
    } else {
        String::new()
    };
    let d = (n % 10) as usize;
    out.append(digit_str(d));
    proof {
        if n < 10 {
            assert(out@ =~= digit_text(n as nat));
        }
    }
    out
}


/// Lowercase hexadecimal numeral of `n` without leading zeros.
pub open spec fn hex_numeral(n: nat) -> Seq<char>
    decreases n,
{
    if n < 16 {
        seq![hex_digit_of(n)]
    } else {
        hex_numeral(n / 16).push(hex_digit_of(n % 16))
    }
}

pub open spec fn hex_digit_of(d: nat) -> char {
    if d < 10 { (0x30 + d) as char } else { (0x61 + d - 10) as char }
}

/// How `{:?}` writes one ASCII character inside a quoted string; other characters
/// are written as they are.
pub open spec fn debug_char(c: char) -> Seq<char> {
    let u = c as u32;
    if c == '\0' {
        "\\0"@
    } else if c == '\t' {
        "\\t"@
    } else if c == '\r' {
        "\\r"@
    } else if c == '\n' {
        "\\n"@
    } else if c == '\\' {
        "\\\\"@
    } else if c == '"' {
        "\\\""@
    } else if u < 0x20 || u == 0x7f {
        "\\u{"@ + hex_numeral(u as nat) + "}"@
    } else {
        seq![c]
    }
}

/// The characters before `n` as `{:?}` writes them inside quotes.
pub open spec fn debug_chars(s: Seq<char>, n: int) -> Seq<char>
    decreases n,
{
    if n <= 0 {
        Seq::empty()
    } else {
        debug_chars(s, n - 1) + debug_char(s[n - 1])
    }
}

/// A string as `{:?}` writes it, for text whose characters are ASCII.
pub open spec fn debug_str_text(s: Seq<char>) -> Seq<char> {
    "\""@ + debug_chars(s, s.len() as int) + "\""@
}

/// A list of strings as `{:?}` writes it, for text whose characters are ASCII.
pub open spec fn debug_list_text(s: Seq<Seq<char>>) -> Seq<char> {
    "["@ + join(s.map_values(|n: Seq<char>| debug_str_text(n)), ", "@) + "]"@
}

/// Every character of every text is ASCII.
pub open spec fn all_ascii(s: Seq<Seq<char>>) -> bool {
    forall|i: int, j: int| 0 <= i < s.len() && 0 <= j < s[i].len() ==> (#[trigger] s[i][j] as u32) < 0x80
}

fn hex_numeral_string(n: u32) -> (r: String)
    ensures
        r@ == hex_numeral(n as nat),
    decreases n,
{
    let mut out = if n >= 16 { hex_numeral_string(n / 16) } else { String::new() };
    let d = n % 16;
    let s: &str = if d == 0 { "0" } else if d == 1 { "1" } else if d == 2 { "2" } else if d == 3 { "3" }
        else if d == 4 { "4" } else if d == 5 { "5" } else if d == 6 { "6" } else if d == 7 { "7" }
        else if d == 8 { "8" } else if d == 9 { "9" } else if d == 10 { "a" } else if d == 11 { "b" }
        else if d == 12 { "c" } else if d == 13 { "d" } else if d == 14 { "e" } else { "f" };
    proof {
        reveal_strlit("0");
        reveal_strlit("1");
        reveal_strlit("2");
        reveal_strlit("3");
        reveal_strlit("4");
        reveal_strlit("5");
        reveal_strlit("6");
        reveal_strlit("7");
        reveal_strlit("8");
        reveal_strlit("9");
        reveal_strlit("a");
        reveal_strlit("b");
        reveal_strlit("c");
        reveal_strlit("d");
        reveal_strlit("e");
        reveal_strlit("f");
        assert(s@ =~= seq![hex_digit_of(d as nat)]);
    }
    out.append(s);
    proof {
        if n < 16 {
            assert(out@ =~= seq![hex_digit_of(n as nat)]);
        } else {
            assert(out@ =~= hex_numeral((n / 16) as nat).push(hex_digit_of((n % 16) as nat)));
        }
    }
    out
}

fn debug_char_string(c: char) -> (r: String)
    ensures
        r@ == debug_char(c),
{
    let u = c as u32;
    if c == '\0' {
        owned("\\0")
    } else if c == '\t' {
        owned("\\t")
    } else if c == '\r' {
        owned("\\r")
    } else if c == '\n' {
        owned("\\n")
    } else if c == '\\' {
        owned("\\\\")
    } else if c == '"' {
        owned("\\\"")
    } else if u < 0x20 || u == 0x7f {
        let mut s = owned("\\u{");
        s.append(hex_numeral_string(u).as_str());
        s.append("}");
        s
    } else {
        let mut cs: Vec<char> = Vec::new();
        cs.push(c);
        let s = crate::text::chars_string(&cs);
        assert(s@ =~= seq![c]);
        s
    }
}

/// Render a string as `{:?}` writes ASCII text.
pub fn debug_str_string(s: &str) -> (r: String)
    ensures
        r@ == debug_str_text(s@),
{
    let mut out = owned("\"");
    let ghost head = out@;
    let n = s.unicode_len();
    let mut i: usize = 0;
    while i < n
        invariant
            i <= n,
            n == s@.len(),
            out@ == head + debug_chars(s@, i as int),
        decreases n - i,
    {
        let piece = debug_char_string(s.get_char(i));
        out.append(piece.as_str());
        assert(out@ =~= head + debug_chars(s@, i + 1));
        i = i + 1;
    }
    out.append("\"");
    out
}

/// Render a list of strings as `{:?}` writes ASCII text.
pub fn debug_list_string(v: &Vec<String>) -> (r: String)
    ensures
        r@ == debug_list_text(views(v@)),
{
    let ghost quoted = views(v@).map_values(|n: Seq<char>| debug_str_text(n));
    let mut parts: Vec<String> = Vec::new();
    let mut i: usize = 0;
    while i < v.len()
        invariant
            i <= v@.len(),
            quoted == views(v@).map_values(|n: Seq<char>| debug_str_text(n)),
            views(parts@) == quoted.take(i as int),
        decreases v.len() - i,
    {
        let q = debug_str_string(v[i].as_str());
        let ghost prev = views(parts@);
        parts.push(q);
        assert(views(parts@) =~= prev.push(q@));
        assert(quoted.take(i + 1) =~= quoted.take(i as int).push(quoted[i as int]));
        i = i + 1;
    }
    assert(quoted.take(v.len() as int) =~= quoted);
    let joined = join_strings(&parts, ", ");
    let mut out = owned("[");
    out.append(joined.as_str());
    out.append("]");
    out
}

/// A string made of the given characters.
pub fn chars_string(chars: &Vec<char>) -> (r: String)
    ensures
        r@ == chars@,
{
    let mut s = String::new();
    let mut i: usize = 0;
    while i < chars.len()
        invariant
            i <= chars@.len(),
            s@ == chars@.take(i as int),
        decreases chars.len() - i,
    {
        push_char(&mut s, chars[i]);
        assert(s@ =~= chars@.take(i + 1));
        i = i + 1;
    }
    assert(chars@.take(chars.len() as int) =~= chars@);
    s
}

/// `String::push`: the string with one more character at its end.
#[verifier::external_body]
fn push_char(s: &mut String, c: char)
    ensures
        final(s)@ == old(s)@.push(c),
{
    s.push(c);
}


/// Every non-overlapping occurrence of `pat`, scanning from the left, replaced by
/// `rep`, as `str::replace` does for a non-empty pattern.
pub open spec fn replace_all(s: Seq<char>, pat: Seq<char>, rep: Seq<char>) -> Seq<char>
    decreases s.len(),
{
    if pat.len() == 0 || s.len() == 0 {
        s
    } else if pat.len() <= s.len() && s.take(pat.len() as int) == pat {
        rep + replace_all(s.skip(pat.len() as int), pat, rep)
    } else {
        seq![s[0]] + replace_all(s.skip(1), pat, rep)
    }
}

/// The characters of a string.
pub fn text_chars(s: &str) -> (r: Vec<char>)
    ensures
        r@ == s@,
{
    let n = s.unicode_len();
    let mut out: Vec<char> = Vec::new();
    let mut i: usize = 0;
    while i < n
        invariant
            n == s@.len(),
            i <= n,
            out@ == s@.take(i as int),
        decreases n - i,
    {
        out.push(s.get_char(i));
        assert(out@ =~= s@.take(i + 1));
        i = i + 1;
    }
    assert(s@.take(n as int) =~= s@);
    out
}

fn starts_at(s: &Vec<char>, i: usize, pat: &Vec<char>) -> (r: bool)
    requires
        i <= s@.len(),
    ensures
        r == (pat@.len() <= s@.len() - i && s@.skip(i as int).take(pat@.len() as int) == pat@),
{
    if pat.len() > s.len() - i {
        return false;
    }
    let mut k: usize = 0;
    while k < pat.len()
        invariant
            i + pat.len() <= s.len(),
            k <= pat@.len(),
            forall|j: int| 0 <= j < k ==> s@[i + j] == pat@[j],
        decreases pat.len() - k,
    {
        if s[i + k] != pat[k] {
            assert(s@.skip(i as int).take(pat@.len() as int)[k as int] != pat@[k as int]);
            return false;
        }
        k = k + 1;
    }
    assert(s@.skip(i as int).take(pat@.len() as int) =~= pat@);
    true
}

/// Replace every non-overlapping occurrence of a non-empty pattern, from the left.
pub fn replace_text(s: &str, pat: &str, rep: &str) -> (r: String)
    requires
        pat@.len() > 0,
    ensures
        r@ == replace_all(s@, pat@, rep@),
{
    let cs = text_chars(s);
    let ps = text_chars(pat);
    let rs = text_chars(rep);
    let mut out: Vec<char> = Vec::new();
    let mut i: usize = 0;
    assert(cs@.skip(0) =~= cs@);
    assert(out@ + replace_all(cs@.skip(0), ps@, rs@) =~= replace_all(s@, pat@, rep@));
    while i < cs.len()
        invariant
            cs@ == s@,
            ps@ == pat@,
            rs@ == rep@,
            pat@.len() > 0,
            i <= cs@.len(),
            out@ + replace_all(cs@.skip(i as int), ps@, rs@) == replace_all(s@, pat@, rep@),
        decreases cs.len() - i,
    {
        let ghost rest = cs@.skip(i as int);
        if starts_at(&cs, i, &ps) {
            proof {
                assert(rest.skip(ps@.len() as int) =~= cs@.skip(i + ps@.len()));
                assert(out@ + rs@ + replace_all(cs@.skip(i + ps@.len()), ps@, rs@)
                    =~= out@ + (rs@ + replace_all(rest.skip(ps@.len() as int), ps@, rs@)));
            }
            let mut k: usize = 0;
            let ghost before = out@;
            while k < rs.len()
                invariant
                    k <= rs@.len(),
                    out@ == before + rs@.take(k as int),
                decreases rs.len() - k,
            {
                out.push(rs[k]);
                assert(out@ =~= before + rs@.take(k + 1));
                k = k + 1;
            }
            assert(rs@.take(rs@.len() as int) =~= rs@);
            i = i + ps.len();
        } else {
            proof {
                assert(rest.skip(1) =~= cs@.skip(i + 1));
                assert(rest[0] == cs@[i as int]);
                assert(out@.push(cs@[i as int]) + replace_all(cs@.skip(i + 1), ps@, rs@)
                    =~= out@ + (seq![rest[0]] + replace_all(rest.skip(1), ps@, rs@)));
            }
            out.push(cs[i]);
            i = i + 1;
        }
    }
    proof {
        assert(cs@.skip(i as int) =~= Seq::<char>::empty());
        assert(out@ + Seq::<char>::empty() =~= out@);
    }
    chars_string(&out)
}

} // verus!
