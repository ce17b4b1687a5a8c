//! Benchmark protocol policy: embedded-model decoding, case selection,
//! training modes, deterministic fixture codes, measurement schedules and the
//! checks applied to reported training state.

use vstd::prelude::*;
use sha2::Digest;
use crate::parameter::slot_view;
use crate::store::{EntryView, ParameterStore};
use crate::text::{
    all_ascii, char_is_ws, debug_list_text, decimal, insert_sorted, is_ws, join, owned, sorted_strict, str_eq, u64_text,
    usize_text, views,
};

verus! {

// ---------------------------------------------------------------------------
// hex-encoded models
// ---------------------------------------------------------------------------

/// A text without its leading whitespace.
pub open spec fn trim_start(s: Seq<char>) -> Seq<char>
    decreases s.len(),
{
    if s.len() > 0 && is_ws(s[0]) {
        trim_start(s.drop_first())
    } else {
        s
    }
}

/// A text without its trailing whitespace.
pub open spec fn trim_end(s: Seq<char>) -> Seq<char>
    decreases s.len(),
{
    if s.len() > 0 && is_ws(s.last()) {
        trim_end(s.drop_last())
    } else {
        s
    }
}

/// A text without surrounding whitespace, as `str::trim` gives it.
pub open spec fn trim(s: Seq<char>) -> Seq<char> {
    trim_end(trim_start(s))
}

/// The number of bytes a character takes in UTF-8.
pub open spec fn utf8_width(c: char) -> int {
    let u = c as u32;
    if u < 0x80 { 1 } else if u < 0x800 { 2 } else if u < 0x10000 { 3 } else { 4 }
}

/// The number of bytes a text takes in UTF-8.
pub open spec fn utf8_len(s: Seq<char>) -> int
    decreases s.len(),
{
    if s.len() == 0 {
        0
    } else {
        utf8_len(s.drop_last()) + utf8_width(s.last())
    }
}

/// The value of a hexadecimal digit of either case.
pub open spec fn hex_value(c: char) -> Option<u8> {
    let u = c as u32;
    if 0x30 <= u <= 0x39 {
        Some((u - 0x30) as u8)
    } else if 0x61 <= u <= 0x66 {
        Some((u - 0x61 + 10) as u8)
    } else if 0x41 <= u <= 0x46 {
        Some((u - 0x41 + 10) as u8)
    } else {
        None
    }
}

/// A two-character byte as `u8::from_str_radix(_, 16)` reads it: two digits, or
/// a plus sign and one digit.
pub open spec fn pair_value(a: char, b: char) -> Option<u8> {
    if a == '+' {
        hex_value(b)
    } else {
        match (hex_value(a), hex_value(b)) {
            (Some(x), Some(y)) => Some((x * 16 + y) as u8),
            _ => None,
        }
    }
}

/// The bytes of the pairs before pair `n`, or nothing once a pair is not a byte.
pub open spec fn hex_pairs(t: Seq<char>, n: int) -> Option<Seq<u8>>
    decreases n,
{
    if n <= 0 {
        Some(Seq::empty())
    } else {
        match hex_pairs(t, n - 1) {
            None => None,
            Some(out) => match pair_value(t[2 * (n - 1)], t[2 * (n - 1) + 1]) {
                None => None,
                Some(b) => Some(out.push(b)),
            },
        }
    }
}

proof fn lemma_hex_pairs_bytes(t: Seq<char>, n: int)
    requires
        0 <= n,
        2 * n <= t.len(),
        hex_pairs(t, n) is Some,
    ensures
        hex_pairs(t, n)->0.len() == n,
        forall|i: int| 0 <= i < n ==> pair_value(t[2 * i], t[2 * i + 1]) == Some(#[trigger] hex_pairs(t, n)->0[i]),
    decreases n,
{
    if n > 0 {
        lemma_hex_pairs_bytes(t, n - 1);
    }
}

/// A decoded model holds one byte per pair of characters of the trimmed text,
/// each the value of its pair as `u8::from_str_radix(_, 16)` reads it.
pub proof fn law_decode_hex_bytes(input: Seq<char>)
    requires
        decode_hex_spec(input) is Ok,
    ensures
        ({
            let t = trim(input);
            let b = decode_hex_spec(input)->Ok_0;
            &&& b.len() == t.len() / 2
            &&& forall|i: int| 0 <= i < b.len() ==> pair_value(t[2 * i], t[2 * i + 1]) == Some(#[trigger] b[i])
        }),
{
    let t = trim(input);
    lemma_hex_pairs_bytes(t, (t.len() / 2) as int);
}

pub open spec fn is_ascii_text(s: Seq<char>) -> bool {
    forall|i: int| 0 <= i < s.len() ==> (#[trigger] s[i] as u32) < 0x80
}

/// The bytes a hex-encoded model decodes to. A text whose pairs are not all hex
/// bytes is refused; one that is not ASCII always is, since one of its pairs
/// holds a byte of a wider character.
pub open spec fn decode_hex_spec(input: Seq<char>) -> Result<Seq<u8>, Seq<char>> {
    let t = trim(input);
    if utf8_len(t) % 2 != 0 {
        Err("hex model has an odd number of characters"@)
    } else if !is_ascii_text(t) {
        Err("invalid digit found in string"@)
    } else {
        match hex_pairs(t, (t.len() / 2) as int) {
            None => Err("invalid digit found in string"@),
            Some(bytes) => Ok(bytes),
        }
    }
}

pub open spec fn text_outcome<T>(r: Result<Vec<T>, String>) -> Result<Seq<T>, Seq<char>> {
    match r {
        Ok(v) => Ok(v@),
        Err(e) => Err(e@),
    }
}

fn hex_digit(c: char) -> (r: Option<u8>)
    ensures
        r == hex_value(c),
{
    let u = c as u32;
    if 0x30 <= u && u <= 0x39 {
        Some((u - 0x30) as u8)
    } else if 0x61 <= u && u <= 0x66 {
        Some((u - 0x61 + 10) as u8)
    } else if 0x41 <= u && u <= 0x46 {
        Some((u - 0x41 + 10) as u8)
    } else {
        None
    }
}

proof fn lemma_trim_start_skip(s: Seq<char>, k: int)
    requires
        0 <= k <= s.len(),
        forall|i: int| 0 <= i < k ==> is_ws(#[trigger] s[i]),
    ensures
        trim_start(s) == trim_start(s.skip(k)),
    decreases k,
{
    if k > 0 {
        assert(s.skip(1) =~= s.drop_first());
        lemma_trim_start_skip(s.drop_first(), k - 1);
        assert(s.drop_first().skip(k - 1) =~= s.skip(k));
    } else {
        assert(s.skip(0) =~= s);
    }
}

proof fn lemma_trim_end_take(s: Seq<char>, k: int)
    requires
        0 <= k <= s.len(),
        forall|i: int| k <= i < s.len() ==> is_ws(#[trigger] s[i]),
    ensures
        trim_end(s) == trim_end(s.take(k)),
    decreases s.len() - k,
{
    if k < s.len() {
        assert(s.last() == s[s.len() - 1]);
        lemma_trim_end_take(s.drop_last(), k);
        assert(s.drop_last().take(k) =~= s.take(k));
    } else {
        assert(s.take(k) =~= s);
    }
}

/// The character range `start..end` of a text that `str::trim` keeps.
fn trim_range(s: &str) -> (r: (usize, usize))
    ensures
        r.0 <= r.1 <= s@.len(),
        s@.subrange(r.0 as int, r.1 as int) == trim(s@),
{
    let n = s.unicode_len();
    let mut start: usize = 0;
    while start < n && char_is_ws(s.get_char(start))
        invariant
            n == s@.len(),
            start <= n,
            forall|i: int| 0 <= i < start ==> is_ws(#[trigger] s@[i]),
        decreases n - start,
    {
        start = start + 1;
    }
    proof {
        lemma_trim_start_skip(s@, start as int);
        if start < n {
            assert(s@.skip(start as int)[0] == s@[start as int]);
        } else {
            assert(s@.skip(start as int) =~= Seq::<char>::empty());
        }
    }
    let ghost rest = s@.skip(start as int);
    assert(trim_start(s@) == rest);
    let mut end: usize = n;
    while end > start && char_is_ws(s.get_char(end - 1))
        invariant
            n == s@.len(),
            start <= end <= n,
            rest == s@.skip(start as int),
            forall|i: int| end <= i < n ==> is_ws(#[trigger] s@[i]),
        decreases end - start,
    {
        end = end - 1;
    }
    proof {
        assert forall|i: int| end - start <= i < rest.len() implies is_ws(#[trigger] rest[i]) by {
            assert(rest[i] == s@[i + start]);
        }
        lemma_trim_end_take(rest, end - start);
        let kept = rest.take(end - start);
        if end > start {
            assert(kept.last() == s@[end - 1]);
        } else {
            assert(kept =~= Seq::<char>::empty());
        }
        assert(kept =~= s@.subrange(start as int, end as int));
    }
    (start, end)
}

fn char_width(c: char) -> (r: usize)
    ensures
        r == utf8_width(c),
{
    let u = c as u32;
    if u < 0x80 { 1 } else if u < 0x800 { 2 } else if u < 0x10000 { 3 } else { 4 }
}

/// Decode a hex-encoded model after trimming surrounding whitespace.
pub fn decode_hex(input: &str) -> (r: Result<Vec<u8>, String>)
    ensures
        text_outcome(r) == decode_hex_spec(input@),
{
    let (start, end) = trim_range(input);
    let ghost t = input@.subrange(start as int, end as int);
    let mut odd = false;
    let mut ascii = true;
    let mut i: usize = start;
    while i < end
        invariant
            start <= i <= end <= input@.len(),
            t == input@.subrange(start as int, end as int),
            odd == (utf8_len(t.take(i - start)) % 2 == 1),
            ascii == is_ascii_text(t.take(i - start)),
        decreases end - i,
    {
        let c = input.get_char(i);
        proof {
            assert(t.take(i - start + 1).drop_last() =~= t.take(i - start));
            assert(t.take(i - start + 1).last() == c);
            assert(t[i - start] == c);
        }
        let w = char_width(c);
        if w % 2 == 1 {
            odd = !odd;
        }
        if (c as u32) >= 0x80 {
            ascii = false;
        }
        i = i + 1;
        proof {
            let tk = t.take(i - start);
            if ascii {
                assert forall|k: int| 0 <= k < tk.len() implies (#[trigger] tk[k] as u32) < 0x80 by {
                    if k < tk.len() - 1 {
                        assert(t.take(i - start - 1)[k] == tk[k]);
                    }
                }
            } else if (c as u32) >= 0x80 {
                assert(tk[tk.len() - 1] == c);
            } else {
                let w = choose|w: int| 0 <= w < t.take(i - start - 1).len() && !((#[trigger] t.take(i - start - 1)[w] as u32) < 0x80);
                assert(tk[w] == t.take(i - start - 1)[w]);
            }
        }
    }
    assert(t.take(end - start) =~= t);
    if odd {
        return Err(owned("hex model has an odd number of characters"));
    }
    if !ascii {
        return Err(owned("invalid digit found in string"));
    }
    proof {
        assert(utf8_len(t) == t.len()) by {
            lemma_ascii_utf8_len(t);
        }
    }
    let pairs = (end - start) / 2;
    let mut out: Vec<u8> = Vec::new();
    let mut p: usize = 0;
    while p < pairs
        invariant
            start <= end <= input@.len(),
            t == input@.subrange(start as int, end as int),
            t.len() == end - start,
            t == trim(input@),
            is_ascii_text(t),
            utf8_len(t) % 2 == 0,
            pairs * 2 == end - start,
            p <= pairs,
            hex_pairs(t, p as int) == Some(out@),
        decreases pairs - p,
    {
        let a = input.get_char(start + 2 * p);
        let b = input.get_char(start + 2 * p + 1);
        assert(t[2 * p as int] == a && t[2 * p + 1] == b);
        let v: Option<u8> = if a == '+' {
            hex_digit(b)
        } else {
            match (hex_digit(a), hex_digit(b)) {
                (Some(x), Some(y)) => Some(x * 16 + y),
                _ => None,
            }
        };
        match v {
            None => {
                proof {
                    lemma_hex_pairs_none(t, p + 1, pairs as int);
                }
                return Err(owned("invalid digit found in string"));
            },
            Some(byte) => {
                out.push(byte);
            },
        }
        p = p + 1;
    }
    Ok(out)
}

proof fn lemma_ascii_utf8_len(s: Seq<char>)
    requires
        is_ascii_text(s),
    ensures
        utf8_len(s) == s.len(),
    decreases s.len(),
{
    if s.len() > 0 {
        assert(s.last() == s[s.len() - 1]);
        assert(is_ascii_text(s.drop_last())) by {
            assert forall|i: int| 0 <= i < s.drop_last().len() implies (#[trigger] s.drop_last()[i] as u32) < 0x80 by {
                assert(s.drop_last()[i] == s[i]);
            }
        }
        lemma_ascii_utf8_len(s.drop_last());
    }
}

proof fn lemma_hex_pairs_none(t: Seq<char>, n: int, m: int)
    requires
        0 <= n <= m,
        hex_pairs(t, n) is None,
    ensures
        hex_pairs(t, m) is None,
    decreases m - n,
{
    if m > n {
        lemma_hex_pairs_none(t, n, m - 1);
    }
}

/// Refuse to run benchmarks from a build with debug assertions.
pub fn require_release(debug_assertions: bool) -> (r: Result<(), String>)
    ensures
        debug_assertions <==> r is Err,
        r matches Err(e) ==> e@ == "benchmarks must be run with --release"@,
{
    if debug_assertions {
        return Err(owned("benchmarks must be run with --release"));
    }
    Ok(())
}

// ---------------------------------------------------------------------------
// modes and policies
// ---------------------------------------------------------------------------

/// What one training benchmark step runs.
#[derive(Clone, Copy, Debug, PartialEq, Eq, Structural)]
pub enum TrainingMode {
    ForwardLoss,
    ForwardBackward,
    TrainStep,
}

/// Whether a step in a mode produces gradients.
pub open spec fn mode_gradients(m: TrainingMode) -> bool {
    m == TrainingMode::ForwardBackward || m == TrainingMode::TrainStep
}

/// Whether a step in a mode updates parameters.
pub open spec fn mode_updates(m: TrainingMode) -> bool {
    m == TrainingMode::TrainStep
}

pub open spec fn mode_spec(value: Seq<char>) -> Result<TrainingMode, Seq<char>> {
    if value == "forward_loss"@ {
        Ok(TrainingMode::ForwardLoss)
    } else if value == "forward_backward"@ {
        Ok(TrainingMode::ForwardBackward)
    } else if value == "train_step"@ {
        Ok(TrainingMode::TrainStep)
    } else {
        Err("TYNX_BENCH_TRAINING_MODE must be forward_loss, forward_backward, or train_step; got '"@ + value + "'"@)
    }
}

impl TrainingMode {
    /// The mode a setting names; an unset setting means `train_step`.
    pub fn from_setting(value: Option<&str>) -> (r: Result<TrainingMode, String>)
        ensures
            ({
                let v = match value {
                    Some(s) => s@,
                    None => "train_step"@,
                };
                match r {
                    Ok(m) => mode_spec(v) == Ok::<TrainingMode, Seq<char>>(m),
                    Err(e) => mode_spec(v) == Err::<TrainingMode, Seq<char>>(e@),
                }
            }),
    {
        let v: &str = match value {
            Some(s) => s,
            None => "train_step",
        };
        if str_eq(v, "forward_loss") {
            Ok(TrainingMode::ForwardLoss)
        } else if str_eq(v, "forward_backward") {
            Ok(TrainingMode::ForwardBackward)
        } else if str_eq(v, "train_step") {
            Ok(TrainingMode::TrainStep)
        } else {
            let mut m = owned("TYNX_BENCH_TRAINING_MODE must be forward_loss, forward_backward, or train_step; got '");
            m.append(v);
            m.append("'");
            Err(m)
        }
    }

    /// Whether a step in this mode produces gradients.
    pub fn expects_gradients(self) -> (r: bool)
        ensures
            r == mode_gradients(self),
    {
        match self {
            TrainingMode::ForwardBackward | TrainingMode::TrainStep => true,
            TrainingMode::ForwardLoss => false,
        }
    }

    /// Whether a step in this mode updates parameters.
    pub fn expects_updates(self) -> (r: bool)
        ensures
            r == mode_updates(self),
    {
        match self {
            TrainingMode::TrainStep => true,
            _ => false,
        }
    }
}

/// When a training benchmark waits for the device.
#[derive(Clone, Copy, Debug, PartialEq, Eq, Structural)]
pub enum SyncPolicy {
    EachStep,
    FinalOnly,
}

pub open spec fn sync_spec(value: Seq<char>) -> Result<SyncPolicy, Seq<char>> {
    if value == "each_step"@ {
        Ok(SyncPolicy::EachStep)
    } else if value == "final_only"@ {
        Ok(SyncPolicy::FinalOnly)
    } else {
        Err("TYNX_BENCH_SYNC_POLICY must be each_step or final_only; got '"@ + value + "'"@)
    }
}

impl SyncPolicy {
    /// The policy a setting names; an unset setting means `each_step`.
    pub fn from_setting(value: Option<&str>) -> (r: Result<SyncPolicy, String>)
        ensures
            ({
                let v = match value {
                    Some(s) => s@,
                    None => "each_step"@,
                };
                match r {
                    Ok(m) => sync_spec(v) == Ok::<SyncPolicy, Seq<char>>(m),
                    Err(e) => sync_spec(v) == Err::<SyncPolicy, Seq<char>>(e@),
                }
            }),
    {
        let v: &str = match value {
            Some(s) => s,
            None => "each_step",
        };
        if str_eq(v, "each_step") {
            Ok(SyncPolicy::EachStep)
        } else if str_eq(v, "final_only") {
            Ok(SyncPolicy::FinalOnly)
        } else {
            let mut m = owned("TYNX_BENCH_SYNC_POLICY must be each_step or final_only; got '");
            m.append(v);
            m.append("'");
            Err(m)
        }
    }
}

/// Cache settings reported with a training run.
#[derive(Clone, Debug)]
pub struct CachePolicy {
    pub process: String,
    pub autotune: String,
}

/// The cache policy from its settings: a fresh process unless said otherwise, and
/// an autotune cache that does not apply to the `flex` backend and is otherwise unknown.
pub fn cache_policy(process: Option<String>, autotune: Option<String>, backend: &str) -> (r: CachePolicy)
    ensures
        r.process@ == match process {
            Some(p) => p@,
            None => "fresh_process"@,
        },
        r.autotune@ == match autotune {
            Some(a) => a@,
            None => if backend@ == "flex"@ { "not_applicable"@ } else { "unknown"@ },
        },
{
    let process = match process {
        Some(p) => p,
        None => owned("fresh_process"),
    };
    let autotune = match autotune {
        Some(a) => a,
        None => if str_eq(backend, "flex") { owned("not_applicable") } else { owned("unknown") },
    };
    CachePolicy { process, autotune }
}

// ---------------------------------------------------------------------------
// training cases
// ---------------------------------------------------------------------------

/// One training case as the registry lists it.
#[derive(Clone, Debug)]
pub struct CaseSpec {
    pub id: String,
    pub batch_size: usize,
    pub dataset_batches: usize,
    pub iterations: usize,
    pub reset_interval: usize,
    pub estimated_step_flops: u64,
}

/// A selected training case with the parameter sets it must report.
#[derive(Clone, Debug)]
pub struct TrainingCase {
    pub id: String,
    pub batch_size: usize,
    pub dataset_batches: usize,
    pub iterations: usize,
    pub reset_interval: usize,
    pub estimated_step_flops: u64,
    pub expected_trainable: Vec<String>,
    pub expected_frozen: Vec<String>,
}

/// The trainable parameters every training case expects.
pub open spec fn expected_trainable_names() -> Seq<Seq<char>> {
    seq!["gemm1.bias"@, "gemm1.weight"@, "gemm2.bias"@, "gemm2.weight"@]
}

/// Whether a selected case was made from a registry entry.
pub open spec fn case_from(c: TrainingCase, s: CaseSpec, iterations: Option<usize>) -> bool {
    &&& c.id@ == s.id@
    &&& c.batch_size == s.batch_size
    &&& c.dataset_batches == s.dataset_batches
    &&& c.iterations == match iterations {
        Some(n) => n,
        None => s.iterations,
    }
    &&& c.reset_interval == s.reset_interval
    &&& c.estimated_step_flops == s.estimated_step_flops
    &&& views(c.expected_trainable@) == expected_trainable_names()
    &&& c.expected_frozen@.len() == 0
}

/// The requested case id: none when absent or empty.
pub open spec fn request_of(requested: Option<String>) -> Option<Seq<char>> {
    match requested {
        Some(q) => if q@.len() == 0 { None } else { Some(q@) },
        None => None,
    }
}

/// Whether a registry entry is requested.
pub open spec fn wanted(s: CaseSpec, requested: Option<Seq<char>>) -> bool {
    match requested {
        None => true,
        Some(r) => s.id@ == r,
    }
}

/// Whether a case would run with a positive iteration count, dataset and reset interval.
pub open spec fn runnable(s: CaseSpec, iterations: Option<usize>) -> bool {
    let n = match iterations {
        Some(k) => k,
        None => s.iterations,
    };
    n != 0 && s.dataset_batches != 0 && s.reset_interval != 0
}

/// The requested registry entries before `n`, in registry order.
pub open spec fn wanted_upto(specs: Seq<CaseSpec>, requested: Option<Seq<char>>, n: int) -> Seq<CaseSpec>
    decreases n,
{
    if n <= 0 {
        Seq::empty()
    } else if wanted(specs[n - 1], requested) {
        wanted_upto(specs, requested, n - 1).push(specs[n - 1])
    } else {
        wanted_upto(specs, requested, n - 1)
    }
}

pub open spec fn msg_bad_case_counts() -> Seq<char> {
    "training iterations, dataset batches, and reset interval must be positive"@
}

fn expected_trainable() -> (r: Vec<String>)
    ensures
        views(r@) == expected_trainable_names(),
{
    let mut v: Vec<String> = Vec::new();
    v.push(owned("gemm1.bias"));
    v.push(owned("gemm1.weight"));
    v.push(owned("gemm2.bias"));
    v.push(owned("gemm2.weight"));
    assert(views(v@) =~= expected_trainable_names());
    v
}

/// Select training cases from a parsed registry: the schema must be one, an
/// empty or absent request selects every case, an iteration override applies to
/// all, every selected case must have positive counts, and something must be selected.
pub fn select_training_cases(
    schema: u32,
    specs: Vec<CaseSpec>,
    requested: Option<String>,
    iterations: Option<usize>,
) -> (r: Result<Vec<TrainingCase>, String>)
    ensures
        ({
            let req = request_of(requested);
            let chosen = wanted_upto(specs@, req, specs@.len() as int);
            if schema != 1 {
                r matches Err(e) && e@ == "unsupported training benchmark registry schema "@ + decimal(schema as nat)
            } else if exists|i: int| 0 <= i < chosen.len() && !runnable(#[trigger] chosen[i], iterations) {
                r matches Err(e) && e@ == msg_bad_case_counts()
            } else if chosen.len() == 0 {
                r matches Err(e) && e@ == "unknown training benchmark case '"@ + match req {
                    Some(q) => q,
                    None => Seq::<char>::empty(),
                } + "'"@
            } else {
                r matches Ok(cases) && cases@.len() == chosen.len()
                    && forall|i: int| 0 <= i < chosen.len() ==> case_from(#[trigger] cases@[i], chosen[i], iterations)
            }
        }),
{
    let ghost req0 = request_of(requested);
    if schema != 1 {
        let mut m = owned("unsupported training benchmark registry schema ");
        m.append(u64_text(schema as u64).as_str());
        return Err(m);
    }
    let req: Option<String> = match &requested {
        Some(q) => if q.as_str().unicode_len() == 0 { None } else { Some(q.clone()) },
        None => None,
    };
    let ghost reqv = crate::parameter::opt_text(req);
    assert(reqv == req0);
    let mut out: Vec<TrainingCase> = Vec::new();
    let mut i: usize = 0;
    while i < specs.len()
        invariant
            i <= specs@.len(),
            schema == 1,
            reqv == crate::parameter::opt_text(req),
            reqv == req0,
            req0 == request_of(requested),
            out@.len() == wanted_upto(specs@, reqv, i as int).len(),
            forall|k: int| 0 <= k < out@.len() ==> case_from(#[trigger] out@[k], wanted_upto(specs@, reqv, i as int)[k], iterations),
            forall|k: int| 0 <= k < wanted_upto(specs@, reqv, i as int).len() ==> runnable(#[trigger] wanted_upto(specs@, reqv, i as int)[k], iterations),
        decreases specs.len() - i,
    {
        let s = &specs[i];
        let take = match &req {
            None => true,
            Some(q) => str_eq(s.id.as_str(), q.as_str()),
        };
        let ghost prev = wanted_upto(specs@, reqv, i as int);
        assert(take == wanted(specs@[i as int], reqv));
        if take {
            let n = match iterations {
                Some(k) => k,
                None => s.iterations,
            };
            if n == 0 || s.dataset_batches == 0 || s.reset_interval == 0 {
                proof {
                    assert(wanted(specs@[i as int], reqv));
                    assert(!runnable(specs@[i as int], iterations));
                    lemma_wanted_bad(specs@, reqv, iterations, i as int);
                    let chosen = wanted_upto(specs@, reqv, specs@.len() as int);
                    assert(exists|k: int| 0 <= k < chosen.len() && !runnable(#[trigger] chosen[k], iterations));
                }
                let e = owned("training iterations, dataset batches, and reset interval must be positive");
                assert(e@ == msg_bad_case_counts());
                return Err(e);
            }
            let c = TrainingCase {
                id: s.id.clone(),
                batch_size: s.batch_size,
                dataset_batches: s.dataset_batches,
                iterations: n,
                reset_interval: s.reset_interval,
                estimated_step_flops: s.estimated_step_flops,
                expected_trainable: expected_trainable(),
                expected_frozen: Vec::new(),
            };
            let ghost o0 = out@;
            out.push(c);
            proof {
                let cur = wanted_upto(specs@, reqv, i + 1);
                assert(cur == prev.push(specs@[i as int]));
                assert forall|k: int| 0 <= k < out@.len() implies case_from(#[trigger] out@[k], cur[k], iterations) by {
                    if k < o0.len() {
                        assert(out@[k] == o0[k]);
                        assert(cur[k] == prev[k]);
                    }
                }
                assert forall|k: int| 0 <= k < cur.len() implies runnable(#[trigger] cur[k], iterations) by {
                    if k < prev.len() {
                        assert(cur[k] == prev[k]);
                    }
                }
            }
        }
        i = i + 1;
    }
    if out.len() == 0 {
        let mut m = owned("unknown training benchmark case '");
        match &req {
            Some(q) => m.append(q.as_str()),
            None => {},
        }
        m.append("'");
        return Err(m);
    }
    Ok(out)
}

proof fn lemma_wanted_bad(specs: Seq<CaseSpec>, req: Option<Seq<char>>, iterations: Option<usize>, i: int)
    requires
        0 <= i < specs.len(),
        wanted(specs[i], req),
        !runnable(specs[i], iterations),
    ensures
        exists|k: int| 0 <= k < wanted_upto(specs, req, specs.len() as int).len()
            && !runnable(#[trigger] wanted_upto(specs, req, specs.len() as int)[k], iterations),
{
    lemma_wanted_prefix(specs, req, i + 1, specs.len() as int);
    let w = wanted_upto(specs, req, i + 1);
    assert(w[w.len() - 1] == specs[i]);
    assert(wanted_upto(specs, req, specs.len() as int)[w.len() - 1] == specs[i]);
}

proof fn lemma_wanted_prefix(specs: Seq<CaseSpec>, req: Option<Seq<char>>, n: int, m: int)
    requires
        0 <= n <= m <= specs.len(),
    ensures
        wanted_upto(specs, req, n).len() <= wanted_upto(specs, req, m).len(),
        forall|k: int| 0 <= k < wanted_upto(specs, req, n).len() ==> #[trigger] wanted_upto(specs, req, m)[k] == wanted_upto(specs, req, n)[k],
    decreases m - n,
{
    if m > n {
        lemma_wanted_prefix(specs, req, n, m - 1);
    }
}

// ---------------------------------------------------------------------------
// deterministic fixtures
// ---------------------------------------------------------------------------

/// Input features of the training fixture.
pub const INPUT_FEATURES: usize = 784;
/// Hidden units of the training fixture.
pub const HIDDEN_FEATURES: usize = 512;
/// Output classes of the training fixture.
pub const OUTPUT_FEATURES: usize = 10;

/// The code of input element `index` of batch `batch`, in `0..257`; the fixture
/// value is the code less 128, over 256.
pub fn input_code(index: usize, batch: usize) -> (r: usize)
    requires
        index + batch * 37 <= usize::MAX,
    ensures
        r == (index + batch * 37) % 257,
{
    (index + batch * 37) % 257
}

/// Whether target element `index` of batch `batch` is its sample's label; label
/// positions hold 0.75 and the others -0.25.
pub fn target_is_label(index: usize, batch: usize) -> (r: bool)
    requires
        index / 10 + batch * 3 <= usize::MAX,
    ensures
        r == (index % 10 == (index / 10 + batch * 3) % 10),
{
    let sample = index / OUTPUT_FEATURES;
    let class = index % OUTPUT_FEATURES;
    let label = (sample + batch * 3) % OUTPUT_FEATURES;
    class == label
}

/// The code of element `index` of an initializer seeded with `seed`, in `0..251`,
/// with the wrapping products the fixture uses; the value is the code less 125,
/// times 0.0001.
pub fn seeded_code(index: usize, seed: usize) -> (r: usize)
    requires
        seed * 7 <= usize::MAX,
    ensures
        r == ((((index * seed) % (usize::MAX + 1)) + seed * 7) % (usize::MAX + 1)) % 251,
{
    let product = index.wrapping_mul(seed);
    let value = product.wrapping_add(seed * 7);
    value % 251
}

// ---------------------------------------------------------------------------
// digests
// ---------------------------------------------------------------------------

/// The SHA-256 digest of a byte string.
pub uninterp spec fn sha256_digest(bytes: Seq<u8>) -> Seq<u8>;

/// `sha2::Sha256::digest`: the digest of the bytes, 32 bytes long.
#[verifier::external_body]
fn sha256(bytes: &[u8]) -> (r: Vec<u8>)
    ensures
        r@ == sha256_digest(bytes@),
        r@.len() == 32,
{
    sha2::Sha256::digest(bytes).to_vec()
}

pub open spec fn hex_char(d: int) -> char {
    if d < 10 { (0x30 + d) as char } else { (0x61 + d - 10) as char }
}

/// Bytes as lowercase hex, two digits each, as `{:x}` prints a digest.
pub open spec fn lower_hex(bytes: Seq<u8>) -> Seq<char>
    decreases bytes.len(),
{
    if bytes.len() == 0 {
        Seq::empty()
    } else {
        lower_hex(bytes.drop_last()).push(hex_char((bytes.last() / 16) as int)).push(hex_char((bytes.last() % 16) as int))
    }
}

fn hex_digit_char(d: u8) -> (r: char)
    requires
        d < 16,
    ensures
        r == hex_char(d as int),
{
    if d < 10 {
        ((0x30u8 + d) as char)
    } else {
        ((0x61u8 + d - 10) as char)
    }
}

/// Render bytes as lowercase hex.
pub fn lower_hex_string(bytes: &[u8]) -> (r: String)
    ensures
        r@ == lower_hex(bytes@),
{
    let mut chars: Vec<char> = Vec::new();
    let mut i: usize = 0;
    while i < bytes.len()
        invariant
            i <= bytes@.len(),
            chars@ == lower_hex(bytes@.take(i as int)),
        decreases bytes.len() - i,
    {
        let b = bytes[i];
        chars.push(hex_digit_char(b / 16));
        chars.push(hex_digit_char(b % 16));
        assert(bytes@.take(i + 1).drop_last() =~= bytes@.take(i as int));
        i = i + 1;
    }
    assert(bytes@.take(bytes.len() as int) =~= bytes@);
    crate::text::chars_string(&chars)
}

/// The lowercase hex SHA-256 of a model's bytes.
pub fn model_sha256(bytes: &[u8]) -> (r: String)
    ensures
        r@ == lower_hex(sha256_digest(bytes@)),
        r@.len() == 64,
{
    let d = sha256(bytes);
    let r = lower_hex_string(d.as_slice());
    proof {
        lemma_lower_hex_len(d@);
    }
    r
}

proof fn lemma_lower_hex_len(b: Seq<u8>)
    ensures
        lower_hex(b).len() == 2 * b.len(),
    decreases b.len(),
{
    if b.len() > 0 {
        lemma_lower_hex_len(b.drop_last());
    }
}

// ---------------------------------------------------------------------------
// measurement schedules and state checks
// ---------------------------------------------------------------------------

/// Block sizes of a measurement: runs of at most `reset_interval` steps, each
/// after a reset, until `iterations` steps have run.
pub open spec fn blocks_spec(iterations: usize, reset_interval: usize) -> Seq<usize>
    decreases iterations,
{
    if iterations == 0 || reset_interval == 0 {
        Seq::empty()
    } else if iterations <= reset_interval {
        seq![iterations]
    } else {
        seq![reset_interval] + blocks_spec((iterations - reset_interval) as usize, reset_interval)
    }
}

/// The block sizes of a measurement run.
pub fn measurement_blocks(iterations: usize, reset_interval: usize) -> (r: Vec<usize>)
    requires
        reset_interval > 0,
    ensures
        r@ == blocks_spec(iterations, reset_interval),
{
    let mut out: Vec<usize> = Vec::new();
    let mut completed: usize = 0;
    while completed < iterations
        invariant
            completed <= iterations,
            reset_interval > 0,
            out@ + blocks_spec((iterations - completed) as usize, reset_interval)
                == blocks_spec(iterations, reset_interval),
        decreases iterations - completed,
    {
        let remaining = iterations - completed;
        let block = if reset_interval < remaining { reset_interval } else { remaining };
        let ghost before = out@;
        out.push(block);
        proof {
            let rest = blocks_spec((remaining - block) as usize, reset_interval);
            assert(blocks_spec(remaining, reset_interval) == seq![block] + rest) by {
                if remaining <= reset_interval {
                    assert(rest =~= Seq::<usize>::empty());
                    assert(seq![block] + rest =~= seq![block]);
                }
            }
            assert(out@ + rest =~= before + (seq![block] + rest));
        }
        completed = completed + block;
    }
    assert(out@ + blocks_spec(0, reset_interval) =~= out@);
    out
}

/// Sum of block sizes.
pub open spec fn steps(s: Seq<usize>) -> int
    decreases s.len(),
{
    if s.len() == 0 {
        0
    } else {
        s[0] + steps(s.drop_first())
    }
}

/// A measurement runs exactly the requested number of steps, in blocks that are
/// never empty and never longer than the reset interval.
pub proof fn law_blocks_cover_iterations(iterations: usize, reset_interval: usize)
    requires
        reset_interval > 0,
    ensures
        steps(blocks_spec(iterations, reset_interval)) == iterations,
        forall|i: int| 0 <= i < blocks_spec(iterations, reset_interval).len()
            ==> 0 < #[trigger] blocks_spec(iterations, reset_interval)[i] <= reset_interval,
    decreases iterations,
{
    let b = blocks_spec(iterations, reset_interval);
    if iterations == 0 {
        assert(b =~= Seq::<usize>::empty());
    } else if iterations <= reset_interval {
        assert(b.drop_first() =~= Seq::<usize>::empty());
        assert(b[0] == iterations);
        assert(steps(b) == b[0] + steps(b.drop_first()));
        assert(steps(Seq::<usize>::empty()) == 0);
    } else {
        let rest = (iterations - reset_interval) as usize;
        assert(b[0] == reset_interval);
        law_blocks_cover_iterations(rest, reset_interval);
        assert(b.drop_first() =~= blocks_spec(rest, reset_interval));
        assert(steps(b) == b[0] + steps(b.drop_first()));
        assert forall|i: int| 0 <= i < b.len() implies 0 < #[trigger] b[i] <= reset_interval by {
            if i > 0 {
                assert(b[i] == blocks_spec(rest, reset_interval)[i - 1]);
            }
        }
    }
}

/// The dataset batch a step uses.
pub fn batch_for_step(step: usize, dataset_batches: usize) -> (r: usize)
    requires
        dataset_batches > 0,
    ensures
        r == step % dataset_batches,
        r < dataset_batches,
{
    step % dataset_batches
}

/// Steps in one warmup comparison window.
pub const WARMUP_WINDOW: usize = 10;

/// Check warmup limits: the maximum must not be below the minimum, and the
/// minimum must span two comparison windows.
pub fn check_warmup_bounds(minimum: usize, maximum: usize) -> (r: Result<(), String>)
    ensures
        r is Ok <==> (maximum >= minimum && minimum >= 20),
        r matches Err(e) ==> e@ == "warmup maximum must be >= minimum and minimum must span two windows"@,
{
    if maximum < minimum || minimum < WARMUP_WINDOW * 2 {
        return Err(owned("warmup maximum must be >= minimum and minimum must span two windows"));
    }
    Ok(())
}

/// Consecutive stable window comparisons that end a warmup.
pub const WARMUP_STABLE_WINDOWS: usize = 3;

/// Where a warmup stands: timed steps so far, consecutive stable comparisons, and
/// whether it has converged.
#[derive(Debug, Clone, Copy, PartialEq, Eq, Structural)]
pub struct WarmupProgress {
    pub samples: usize,
    pub stable_windows: usize,
    pub converged: bool,
}

/// The two windows to compare once `samples` steps are timed, as the start of the
/// earlier window and the start of the later one (which runs to the end), when
/// there are enough samples: at least the minimum and at least two windows.
pub fn warmup_windows(samples: usize, minimum: usize) -> (r: Option<(usize, usize)>)
    ensures
        (samples < minimum || samples < 2 * WARMUP_WINDOW) ==> r is None,
        !(samples < minimum || samples < 2 * WARMUP_WINDOW) ==> r == Some(
            ((samples - 2 * WARMUP_WINDOW) as usize, (samples - WARMUP_WINDOW) as usize),
        ),
{
    if samples < minimum || samples < WARMUP_WINDOW * 2 {
        return None;
    }
    let split = samples - WARMUP_WINDOW;
    Some((split - WARMUP_WINDOW, split))
}

/// The warmup after one more timed step. When the windows can be compared,
/// `window_stable` says whether their medians agree within the tolerance: a stable
/// comparison extends the run of stable ones and converges the warmup once the run
/// is long enough, an unstable one resets it.
pub open spec fn advanced_warmup(p: WarmupProgress, minimum: usize, window_stable: bool) -> WarmupProgress {
    let samples = (p.samples + 1) as usize;
    if samples < minimum || samples < 2 * WARMUP_WINDOW {
        WarmupProgress { samples, ..p }
    } else if window_stable {
        let stable_windows = (p.stable_windows + 1) as usize;
        WarmupProgress { samples, stable_windows, converged: p.converged || stable_windows >= WARMUP_STABLE_WINDOWS }
    } else {
        WarmupProgress { samples, stable_windows: 0, converged: p.converged }
    }
}

/// Take one more timed step into the warmup's progress.
pub fn warmup_advance(progress: WarmupProgress, minimum: usize, window_stable: bool) -> (r: WarmupProgress)
    requires
        progress.samples < usize::MAX,
        progress.stable_windows < usize::MAX,
    ensures
        r == advanced_warmup(progress, minimum, window_stable),
{
    let samples = progress.samples + 1;
    match warmup_windows(samples, minimum) {
        None => WarmupProgress { samples, ..progress },
        Some(_) => {
            if window_stable {
                let stable_windows = progress.stable_windows + 1;
                WarmupProgress {
                    samples,
                    stable_windows,
                    converged: progress.converged || stable_windows >= WARMUP_STABLE_WINDOWS,
                }
            } else {
                WarmupProgress { samples, stable_windows: 0, converged: progress.converged }
            }
        },
    }
}

/// A warmup converges on the step that completes enough consecutive stable
/// comparisons, and only on a step where the windows could be compared; until then
/// the run of stable comparisons stays short of that.
pub proof fn law_warmup_converges_after_stable_windows(p: WarmupProgress, minimum: usize, window_stable: bool)
    requires
        !p.converged,
        p.stable_windows < WARMUP_STABLE_WINDOWS,
        p.samples < usize::MAX,
    ensures
        advanced_warmup(p, minimum, window_stable).converged ==> {
            let r = advanced_warmup(p, minimum, window_stable);
            &&& window_stable
            &&& r.stable_windows == WARMUP_STABLE_WINDOWS
            &&& r.samples >= minimum
            &&& r.samples >= 2 * WARMUP_WINDOW
        },
        !advanced_warmup(p, minimum, window_stable).converged ==>
            advanced_warmup(p, minimum, window_stable).stable_windows < WARMUP_STABLE_WINDOWS,
{
}

fn names_equal(a: &Vec<String>, b: &Vec<String>) -> (r: bool)
    ensures
        r == (views(a@) == views(b@)),
{
    if a.len() != b.len() {
        assert(views(a@).len() != views(b@).len());
        return false;
    }
    let mut i: usize = 0;
    while i < a.len()
        invariant
            i <= a@.len(),
            a@.len() == b@.len(),
            forall|k: int| 0 <= k < i ==> a@[k]@ == b@[k]@,
        decreases a.len() - i,
    {
        if !str_eq(a[i].as_str(), b[i].as_str()) {
            assert(views(a@)[i as int] != views(b@)[i as int]);
            return false;
        }
        i = i + 1;
    }
    assert(views(a@) =~= views(b@));
    true
}

/// Parameter-name sets a training run reports.
pub struct ReportedSets {
    pub trainable: Vec<String>,
    pub frozen: Vec<String>,
    pub gradients: Vec<String>,
    pub updated_parameters: usize,
}

/// The reported and expected trainable and frozen sets agree.
pub open spec fn sets_ok(case: TrainingCase, state: ReportedSets) -> bool {
    views(state.trainable@) == views(case.expected_trainable@) && views(state.frozen@) == views(case.expected_frozen@)
}

/// Every name a state check may print is ASCII.
pub open spec fn names_ascii(case: TrainingCase, state: ReportedSets) -> bool {
    all_ascii(views(state.trainable@) + views(state.frozen@) + views(state.gradients@) + views(case.expected_trainable@)
        + views(case.expected_frozen@))
}

/// The complaint about reported sets that differ from the expected ones.
pub open spec fn msg_sets(case: TrainingCase, state: ReportedSets) -> Seq<char> {
    "parameter sets trainable="@ + debug_list_text(views(state.trainable@)) + ", frozen="@
        + debug_list_text(views(state.frozen@)) + "; expected trainable="@
        + debug_list_text(views(case.expected_trainable@)) + ", frozen="@ + debug_list_text(views(case.expected_frozen@))
}

/// Check the reported trainable and frozen sets against the case.
pub fn validate_sets(case: &TrainingCase, state: &ReportedSets) -> (r: Result<(), String>)
    ensures
        r is Ok <==> sets_ok(*case, *state),
        r matches Err(e) ==> (names_ascii(*case, *state) ==> e@ == msg_sets(*case, *state)),
{
    if !names_equal(&state.trainable, &case.expected_trainable) || !names_equal(&state.frozen, &case.expected_frozen) {
        let mut m = owned("parameter sets trainable=");
        m.append(crate::text::debug_list_string(&state.trainable).as_str());
        m.append(", frozen=");
        m.append(crate::text::debug_list_string(&state.frozen).as_str());
        m.append("; expected trainable=");
        m.append(crate::text::debug_list_string(&case.expected_trainable).as_str());
        m.append(", frozen=");
        m.append(crate::text::debug_list_string(&case.expected_frozen).as_str());
        return Err(m);
    }
    Ok(())
}

/// Check the state before training: the sets match, and there are no gradients,
/// no updates and only finite values.
pub fn validate_initial_state(case: &TrainingCase, state: &ReportedSets, finite: bool) -> (r: Result<(), String>)
    ensures
        r is Ok <==> (sets_ok(*case, *state) && state.gradients@.len() == 0 && state.updated_parameters == 0 && finite),
        r matches Err(e) ==> if sets_ok(*case, *state) {
            e@ == "initial training state has gradients, updates, or non-finite values"@
        } else {
            names_ascii(*case, *state) ==> e@ == msg_sets(*case, *state)
        },
{
    match validate_sets(case, state) {
        Err(e) => {
            return Err(e);
        },
        Ok(()) => {},
    }
    if state.gradients.len() != 0 || state.updated_parameters != 0 || !finite {
        return Err(owned("initial training state has gradients, updates, or non-finite values"));
    }
    Ok(())
}

/// Check the state after a step in `mode`: the sets match, values and loss are
/// finite, gradients cover exactly the trainable set when the mode computes them
/// (else the frozen set), and exactly the trainable parameters were updated when
/// the mode updates them (else none).
pub fn validate_state(case: &TrainingCase, mode: TrainingMode, state: &ReportedSets, finite: bool, loss_finite: bool)
    -> (r: Result<(), String>)
    ensures
        r is Ok <==> ({
            let expected_gradients = if mode_gradients(mode) { case.expected_trainable@ } else { case.expected_frozen@ };
            let expected_updates: int = if mode_updates(mode) { case.expected_trainable@.len() as int } else { 0 };
            &&& views(state.trainable@) == views(case.expected_trainable@)
            &&& views(state.frozen@) == views(case.expected_frozen@)
            &&& finite && loss_finite
            &&& views(state.gradients@) == views(expected_gradients)
            &&& state.updated_parameters == expected_updates
        }),
        r matches Err(e) ==> ({
            let expected_gradients = if mode_gradients(mode) { case.expected_trainable@ } else { case.expected_frozen@ };
            let expected_updates: int = if mode_updates(mode) { case.expected_trainable@.len() as int } else { 0 };
            if !sets_ok(*case, *state) {
                names_ascii(*case, *state) ==> e@ == msg_sets(*case, *state)
            } else if !(finite && loss_finite) {
                e@ == "training state contains a non-finite parameter or loss"@
            } else if views(state.gradients@) != views(expected_gradients) {
                names_ascii(*case, *state) ==> e@ == "gradient set "@ + debug_list_text(views(state.gradients@))
                    + " differs from expected "@ + debug_list_text(views(expected_gradients))
            } else {
                e@ == "updated "@ + decimal(state.updated_parameters as nat) + " parameters, expected "@
                    + decimal(expected_updates as nat)
            }
        }),
{
    match validate_sets(case, state) {
        Err(e) => {
            return Err(e);
        },
        Ok(()) => {},
    }
    if !finite || !loss_finite {
        return Err(owned("training state contains a non-finite parameter or loss"));
    }
    let expected_gradients = if mode.expects_gradients() { &case.expected_trainable } else { &case.expected_frozen };
    if !names_equal(&state.gradients, expected_gradients) {
        let mut m = owned("gradient set ");
        m.append(crate::text::debug_list_string(&state.gradients).as_str());
        m.append(" differs from expected ");
        m.append(crate::text::debug_list_string(expected_gradients).as_str());
        return Err(m);
    }
    let expected_updates = if mode.expects_updates() { case.expected_trainable.len() } else { 0 };
    if state.updated_parameters != expected_updates {
        let mut m = owned("updated ");
        m.append(usize_text(state.updated_parameters).as_str());
        m.append(" parameters, expected ");
        m.append(usize_text(expected_updates).as_str());
        return Err(m);
    }
    Ok(())
}

/// Which names of a store a report lists.
pub open spec fn listed(e: EntryView, which: int) -> bool {
    if which == 0 {
        e.slot.contract.trainable
    } else if which == 1 {
        !e.slot.contract.trainable
    } else {
        e.slot.has_grad
    }
}

/// The canonical names of the entries before `n` that a list holds: trainable
/// (`which` zero), frozen (one) or holding a gradient (two).
pub open spec fn names_listed(v: Seq<EntryView>, which: int, n: int) -> Set<Seq<char>>
    decreases n,
{
    if n <= 0 {
        Set::empty()
    } else if listed(v[n - 1], which) {
        names_listed(v, which, n - 1).insert(v[n - 1].canonical)
    } else {
        names_listed(v, which, n - 1)
    }
}

/// The trainable, frozen and gradient-holding parameter names of a store, each
/// sorted; `updated` is carried through.
pub fn reported_sets(store: &ParameterStore, updated: usize) -> (r: ReportedSets)
    ensures
        sorted_strict(views(r.trainable@)),
        sorted_strict(views(r.frozen@)),
        sorted_strict(views(r.gradients@)),
        views(r.trainable@).to_set() == names_listed(store@, 0, store@.len() as int),
        views(r.frozen@).to_set() == names_listed(store@, 1, store@.len() as int),
        views(r.gradients@).to_set() == names_listed(store@, 2, store@.len() as int),
        r.updated_parameters == updated,
{
    let named = store.named();
    let ghost nv = named@.map_values(|p: (&str, &crate::parameter::ParameterSlot)| (p.0@, slot_view(*p.1)));
    assert(nv == store@.map_values(|e: EntryView| (e.canonical, e.slot)));
    let mut trainable: Vec<String> = Vec::new();
    let mut frozen: Vec<String> = Vec::new();
    let mut gradients: Vec<String> = Vec::new();
    proof {
        assert(views(trainable@).to_set() =~= Set::<Seq<char>>::empty());
    }
    let mut i: usize = 0;
    while i < named.len()
        invariant
            i <= named@.len(),
            named@.len() == store@.len(),
            nv == named@.map_values(|p: (&str, &crate::parameter::ParameterSlot)| (p.0@, slot_view(*p.1))),
            nv == store@.map_values(|e: EntryView| (e.canonical, e.slot)),
            sorted_strict(views(trainable@)),
            sorted_strict(views(frozen@)),
            sorted_strict(views(gradients@)),
            views(trainable@).to_set() == names_listed(store@, 0, i as int),
            views(frozen@).to_set() == names_listed(store@, 1, i as int),
            views(gradients@).to_set() == names_listed(store@, 2, i as int),
        decreases named.len() - i,
    {
        let (name, slot) = named[i];
        proof {
            assert(nv[i as int] == (name@, slot_view(*slot)));
            assert(nv[i as int] == (store@[i as int].canonical, store@[i as int].slot));
        }
        if slot.contract().trainable() {
            insert_sorted(&mut trainable, owned(name));
        } else {
            insert_sorted(&mut frozen, owned(name));
        }
        if slot.has_grad() {
            insert_sorted(&mut gradients, owned(name));
        }
        i = i + 1;
    }
    ReportedSets { trainable, frozen, gradients, updated_parameters: updated }
}

/// The first disagreement between a model's declared inputs and the inputs a
/// benchmark case provides: their counts, then their names pair by pair.
pub open spec fn case_inputs_problem(model: Seq<Seq<char>>, case: Seq<Seq<char>>, id: Seq<char>) -> Option<Seq<char>> {
    if model.len() != case.len() {
        Some("model requires "@ + decimal(model.len()) + " inputs, case '"@ + id + "' provides "@ + decimal(case.len()))
    } else if exists|i: int| 0 <= i < model.len() && model[i] != case[i] {
        let i = choose|i: int| 0 <= i < model.len() && model[i] != case[i]
            && forall|k: int| 0 <= k < i ==> model[k] == case[k];
        Some("model input '"@ + model[i] + "' does not match case input '"@ + case[i] + "'"@)
    } else {
        None
    }
}

/// Check that a benchmark case feeds the model's inputs: as many inputs as the
/// model declares, with the same names in the same order.
pub fn check_case_inputs(model_inputs: &Vec<String>, case_inputs: &Vec<String>, case_id: &str) -> (r: Result<(), String>)
    ensures
        match case_inputs_problem(views(model_inputs@), views(case_inputs@), case_id@) {
            None => r is Ok,
            Some(m) => r matches Err(e) && e@ == m,
        },
{
    if model_inputs.len() != case_inputs.len() {
        let mut m = owned("model requires ");
        m.append(usize_text(model_inputs.len()).as_str());
        m.append(" inputs, case '");
        m.append(case_id);
        m.append("' provides ");
        m.append(usize_text(case_inputs.len()).as_str());
        return Err(m);
    }
    let ghost a = views(model_inputs@);
    let ghost b = views(case_inputs@);
    let mut i: usize = 0;
    while i < model_inputs.len()
        invariant
            i <= model_inputs@.len(),
            model_inputs@.len() == case_inputs@.len(),
            a == views(model_inputs@),
            b == views(case_inputs@),
            forall|k: int| 0 <= k < i ==> a[k] == b[k],
        decreases model_inputs.len() - i,
    {
        if !str_eq(model_inputs[i].as_str(), case_inputs[i].as_str()) {
            proof {
                assert(a[i as int] != b[i as int]);
                let c = choose|c: int| 0 <= c < a.len() && a[c] != b[c] && forall|k: int| 0 <= k < c ==> a[k] == b[k];
                assert(0 <= c < a.len() && a[c] != b[c] && forall|k: int| 0 <= k < c ==> a[k] == b[k]) by {
                    assert(0 <= i < a.len() && a[i as int] != b[i as int] && forall|k: int| 0 <= k < i ==> a[k] == b[k]);
                }
                if c < i {
                } else if c > i {
                    assert(a[i as int] == b[i as int]);
                }
            }
            let mut m = owned("model input '");
            m.append(model_inputs[i].as_str());
            m.append("' does not match case input '");
            m.append(case_inputs[i].as_str());
            m.append("'");
            return Err(m);
        }
        i = i + 1;
    }
    Ok(())
}

/// The state name the training benchmark gives a trainable initializer from its
/// first consumer: the consuming node's name with `weight` for input one and
/// `bias` for input two.
pub open spec fn training_state_name_spec(first_use: Option<(Seq<char>, usize)>) -> Result<Seq<char>, Seq<char>> {
    match first_use {
        None => Err("trainable initializer had no consumer"@),
        Some((node, index)) => if index == 1 {
            Ok(node + ".weight"@)
        } else if index == 2 {
            Ok(node + ".bias"@)
        } else {
            Err("unexpected trainable input index "@ + decimal(index as nat))
        },
    }
}

/// Name a trainable initializer after its first consumer, as the training
/// benchmark does before materialising the model.
pub fn training_state_name(first_use: Option<(&str, usize)>) -> (r: Result<String, String>)
    ensures
        ({
            let u = match first_use { Some((n, i)) => Some((n@, i)), None => None };
            match training_state_name_spec(u) {
                Ok(n) => r matches Ok(x) && x@ == n,
                Err(m) => r matches Err(x) && x@ == m,
            }
        }),
{
    match first_use {
        None => Err(owned("trainable initializer had no consumer")),
        Some((node, index)) => {
            if index == 1 {
                let mut n = owned(node);
                n.append(".weight");
                Ok(n)
            } else if index == 2 {
                let mut n = owned(node);
                n.append(".bias");
                Ok(n)
            } else {
                let mut m = owned("unexpected trainable input index ");
                m.append(usize_text(index).as_str());
                Err(m)
            }
        },
    }
}

} // verus!
