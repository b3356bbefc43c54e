//! Sharding flows across simulators for `smix run --parallel N`.
//!
//! `--parallel 1` (one simulator) must produce exactly the order the
//! sequential path has always run.

use vstd::prelude::*;
use crate::text::{decimal, decimal_string, extend_strings, owned, strs};

verus! {

/// Flow indices that simulator `b` of `n` runs, out of `flow_count`:
/// `b`, `b + n`, `b + 2n`, ... while below `flow_count`.
pub open spec fn is_bucket(bucket: Seq<usize>, flow_count: nat, n: nat, b: nat) -> bool {
    &&& forall|k: int| 0 <= k < bucket.len() ==> #[trigger] bucket[k] == b + k * n
    &&& b + bucket.len() * n >= flow_count
    &&& (bucket.len() > 0 ==> bucket[bucket.len() - 1] < flow_count)
}

proof fn lemma_step(b: int, k: int, n: int)
    requires
        n > 0,
        k >= 0,
    ensures
        b + (k + 1) * n == b + k * n + n,
{
    assert((k + 1) * n == k * n + n) by (nonlinear_arith);
}

/// Assign `flow_count` flows across `device_count` sims, round-robin:
/// flow `i` goes to sim `i % device_count`, and each sim's bucket holds
/// its flow indices in ascending order. No sims assigns nothing.
pub fn shard_flows(flow_count: usize, device_count: usize) -> (buckets: Vec<Vec<usize>>)
    ensures
        device_count == 0 ==> buckets@.len() == 0,
        device_count > 0 ==> buckets@.len() == device_count,
        forall|b: int|
            0 <= b < buckets@.len() ==> is_bucket(
                #[trigger] buckets@[b]@,
                flow_count as nat,
                device_count as nat,
                b as nat,
            ),
{
    let mut buckets: Vec<Vec<usize>> = Vec::new();
    if device_count == 0 {
        return buckets;
    }
    let n = device_count;
    let mut b: usize = 0;
    while b < n
        invariant
            b <= n,
            n == device_count,
            n > 0,
            buckets@.len() == b,
            forall|j: int|
                0 <= j < b ==> is_bucket(#[trigger] buckets@[j]@, flow_count as nat, n as nat, j as nat),
        decreases n - b,
    {
        let mut bucket: Vec<usize> = Vec::new();
        if b < flow_count {
            let mut f: usize = b;
            loop
                invariant_except_break
                    f < flow_count,
                    f == b + bucket@.len() * n,
                invariant
                    b < n,
                    n > 0,
                    forall|k: int| 0 <= k < bucket@.len() ==> #[trigger] bucket@[k] == b + k * n,
                    bucket@.len() > 0 ==> bucket@[bucket@.len() - 1] < flow_count,
                ensures
                    is_bucket(bucket@, flow_count as nat, n as nat, b as nat),
                decreases flow_count - f,
            {
                let ghost k = bucket@.len() as int;
                bucket.push(f);
                proof {
                    lemma_step(b as int, k, n as int);
                }
                if flow_count - f <= n {
                    break;
                }
                f = f + n;
            }
        } else {
            assert(is_bucket(bucket@, flow_count as nat, n as nat, b as nat));
        }
        buckets.push(bucket);
        b = b + 1;
    }
    buckets
}

/// Flow `f` is at position `f / n` of bucket `f % n`.
pub open spec fn flow_in_its_bucket(buckets: Seq<Seq<usize>>, f: nat, n: nat) -> bool {
    &&& (f / n) < buckets[(f % n) as int].len()
    &&& buckets[(f % n) as int][(f / n) as int] == f
}

/// Every flow lands in exactly one bucket: flow `f` sits in bucket
/// `f % n` at position `f / n`, and any entry of any bucket is the flow
/// that this rule puts there.
pub proof fn lemma_every_flow_assigned_exactly_once(
    buckets: Seq<Seq<usize>>,
    flow_count: nat,
    n: nat,
)
    requires
        n > 0,
        buckets.len() == n,
        forall|b: int| 0 <= b < n ==> is_bucket(#[trigger] buckets[b], flow_count, n, b as nat),
    ensures
        forall|f: nat| f < flow_count ==> #[trigger] flow_in_its_bucket(buckets, f, n),
        forall|b: int, k: int|
            0 <= b < n && 0 <= k < buckets[b].len() ==> {
                &&& buckets[b][k] < flow_count
                &&& #[trigger] (buckets[b][k] as nat) % n == b
                &&& (buckets[b][k] as nat) / n == k
            },
{
    assert forall|f: nat| f < flow_count implies #[trigger] flow_in_its_bucket(buckets, f, n) by {
        let b = (f % n) as int;
        let k = (f / n) as int;
        assert(f == b + k * n) by (nonlinear_arith)
            requires
                b == f % n,
                k == f / n,
                n > 0,
        ;
        let bk = buckets[b];
        assert(is_bucket(bk, flow_count, n, b as nat));
        if k >= bk.len() {
            assert(b + bk.len() * n <= b + k * n) by (nonlinear_arith)
                requires
                    k >= bk.len(),
                    n > 0,
            ;
            if bk.len() > 0 {
                assert(bk[bk.len() - 1] < flow_count);
            }
            assert(false);
        }
        assert(bk[k] == b + k * n);
    }
    assert forall|b: int, k: int| 0 <= b < n && 0 <= k < buckets[b].len() implies {
        &&& buckets[b][k] < flow_count
        &&& #[trigger] (buckets[b][k] as nat) % n == b
        &&& (buckets[b][k] as nat) / n == k
    } by {
        let bk = buckets[b];
        assert(is_bucket(bk, flow_count, n, b as nat));
        let v = bk[k];
        assert(v == b + k * n);
        let last = bk.len() - 1;
        assert(bk[last] == b + last * n);
        assert(b + k * n <= b + last * n) by (nonlinear_arith)
            requires
                k <= last,
                n > 0,
        ;
        vstd::arithmetic::div_mod::lemma_fundamental_div_mod_converse(v as int, n as int, k, b);
    }
}

/// A bucket is determined by the flow count, the sim count and its
/// index: two sequences that both are bucket `b` are the same sequence.
pub proof fn lemma_bucket_is_determined(x: Seq<usize>, y: Seq<usize>, flow_count: nat, n: nat, b: nat)
    requires
        n > 0,
        is_bucket(x, flow_count, n, b),
        is_bucket(y, flow_count, n, b),
    ensures
        x == y,
{
    if x.len() < y.len() {
        let k = x.len() as int;
        assert(y[k] == b + k * n);
        assert(y[y.len() - 1] == b + (y.len() - 1) * n);
        assert(b + k * n <= b + (y.len() - 1) * n) by (nonlinear_arith)
            requires
                k <= y.len() - 1,
                n > 0,
        ;
        assert(false);
    }
    if y.len() < x.len() {
        let k = y.len() as int;
        assert(x[k] == b + k * n);
        assert(x[x.len() - 1] == b + (x.len() - 1) * n);
        assert(b + k * n <= b + (x.len() - 1) * n) by (nonlinear_arith)
            requires
                k <= x.len() - 1,
                n > 0,
        ;
        assert(false);
    }
    assert(x =~= y);
}

/// The flows `0..m` whose index leaves remainder `b` on division by `n`.
pub open spec fn residue(n: nat, b: nat) -> spec_fn(int) -> bool {
    |i: int| i % (n as int) == b
}

/// `0, 1, ..., m - 1`.
pub open spec fn flows_upto(m: nat) -> Seq<int> {
    Seq::new(m, |i: int| i)
}

spec fn int_bucket(s: Seq<int>, m: nat, n: nat, b: nat) -> bool {
    &&& forall|k: int| 0 <= k < s.len() ==> #[trigger] s[k] == b + k * n
    &&& b + s.len() * n >= m
    &&& (s.len() > 0 ==> s[s.len() - 1] < m)
}

proof fn lemma_filter_is_int_bucket(m: nat, n: nat, b: nat)
    requires
        n > 0,
        b < n,
    ensures
        int_bucket(flows_upto(m).filter(residue(n, b)), m, n, b),
    decreases m,
{
    reveal(Seq::filter);
    if m == 0 {
        assert(flows_upto(0).filter(residue(n, b)) =~= Seq::<int>::empty());
    } else {
        let p = (m - 1) as nat;
        lemma_filter_is_int_bucket(p, n, b);
        let prev = flows_upto(p).filter(residue(n, b));
        assert(flows_upto(m).drop_last() =~= flows_upto(p));
        assert(flows_upto(m).last() == p);
        let len = prev.len() as int;
        if (p as int) % (n as int) == b {
            assert(flows_upto(m).filter(residue(n, b)) == prev.push(p as int));
            let q = (p as int) / (n as int);
            assert(p == b + q * n) by (nonlinear_arith)
                requires
                    (p as int) % (n as int) == b,
                    q == (p as int) / (n as int),
                    n > 0,
            ;
            assert(len == q) by (nonlinear_arith)
                requires
                    b + len * n >= p,
                    len > 0 ==> b + (len - 1) * n < p,
                    p == b + q * n,
                    n > 0,
                    len >= 0,
                    q >= 0,
            ;
            lemma_step(b as int, len, n as int);
        } else {
            assert(flows_upto(m).filter(residue(n, b)) == prev);
            if b + len * n == p {
                vstd::arithmetic::div_mod::lemma_fundamental_div_mod_converse(p as int, n as int, len, b as int);
            }
        }
    }
}

proof fn lemma_int_bucket_is_determined(x: Seq<int>, y: Seq<int>, m: nat, n: nat, b: nat)
    requires
        n > 0,
        int_bucket(x, m, n, b),
        int_bucket(y, m, n, b),
    ensures
        x == y,
{
    if x.len() < y.len() {
        let k = x.len() as int;
        assert(y[k] == b + k * n);
        assert(y[y.len() - 1] == b + (y.len() - 1) * n);
        assert(b + k * n <= b + (y.len() - 1) * n) by (nonlinear_arith)
            requires
                k <= y.len() - 1,
                n > 0,
        ;
    }
    if y.len() < x.len() {
        let k = y.len() as int;
        assert(x[k] == b + k * n);
        assert(x[x.len() - 1] == b + (x.len() - 1) * n);
        assert(b + k * n <= b + (x.len() - 1) * n) by (nonlinear_arith)
            requires
                k <= x.len() - 1,
                n > 0,
        ;
    }
    assert(x =~= y);
}

/// Sharding is a partition of the flow indices by remainder: bucket `b`
/// of `n` is exactly the flows `0..flow_count` whose index leaves `b` on
/// division by `n`, in ascending order; and no two buckets differ in
/// size by more than one.
pub proof fn lemma_buckets_are_residue_classes(buckets: Seq<Seq<usize>>, flow_count: nat, n: nat)
    requires
        n > 0,
        buckets.len() == n,
        forall|b: int| 0 <= b < n ==> is_bucket(#[trigger] buckets[b], flow_count, n, b as nat),
    ensures
        forall|b: int|
            0 <= b < n ==> (#[trigger] buckets[b]).map_values(|v: usize| v as int) == flows_upto(flow_count).filter(
                residue(n, b as nat),
            ),
        forall|b1: int, b2: int|
            0 <= b1 < n && 0 <= b2 < n ==> #[trigger] buckets[b1].len() <= #[trigger] buckets[b2].len() + 1,
{
    assert forall|b: int| 0 <= b < n implies (#[trigger] buckets[b]).map_values(|v: usize| v as int) == flows_upto(
        flow_count,
    ).filter(residue(n, b as nat)) by {
        let x = buckets[b].map_values(|v: usize| v as int);
        assert(is_bucket(buckets[b], flow_count, n, b as nat));
        assert(int_bucket(x, flow_count, n, b as nat));
        lemma_filter_is_int_bucket(flow_count, n, b as nat);
        lemma_int_bucket_is_determined(x, flows_upto(flow_count).filter(residue(n, b as nat)), flow_count, n, b as nat);
    }
    assert forall|b1: int, b2: int| 0 <= b1 < n && 0 <= b2 < n implies #[trigger] buckets[b1].len()
        <= #[trigger] buckets[b2].len() + 1 by {
        let x = buckets[b1];
        let y = buckets[b2];
        assert(is_bucket(x, flow_count, n, b1 as nat));
        assert(is_bucket(y, flow_count, n, b2 as nat));
        let lx = x.len() as int;
        let ly = y.len() as int;
        if lx > ly + 1 {
            let k = ly + 1;
            assert(x[k] == b1 + k * n);
            assert(x[lx - 1] == b1 + (lx - 1) * n);
            assert(b1 + k * n <= b1 + (lx - 1) * n) by (nonlinear_arith)
                requires
                    k <= lx - 1,
                    n > 0,
            ;
            assert(b1 + k * n >= b2 + ly * n) by (nonlinear_arith)
                requires
                    k == ly + 1,
                    b1 >= 0,
                    b2 < n,
            ;
        }
    }
}

/// With one simulator the single bucket is the sequential order
/// `0, 1, ..., flow_count - 1`.
pub proof fn lemma_one_sim_is_sequential(bucket: Seq<usize>, flow_count: nat)
    requires
        is_bucket(bucket, flow_count, 1, 0),
    ensures
        bucket.len() == flow_count,
        forall|k: int| 0 <= k < flow_count ==> #[trigger] bucket[k] == k,
{
    if bucket.len() > 0 {
        assert(bucket[bucket.len() - 1] == bucket.len() - 1);
    }
}

/// The aggregate is never below any shard's code, and it is either 0
/// (nothing ran) or the code of one of the shards: one failed shard
/// fails the whole run and nothing is invented.
pub proof fn lemma_aggregate_is_the_worst(codes: Seq<u8>)
    ensures
        forall|i: int| 0 <= i < codes.len() ==> #[trigger] codes[i] <= max_code(codes),
        codes.len() == 0 ==> max_code(codes) == 0,
        codes.len() > 0 ==> exists|i: int| 0 <= i < codes.len() && codes[i] == max_code(codes),
    decreases codes.len(),
{
    if codes.len() > 0 {
        let rest = codes.drop_last();
        lemma_aggregate_is_the_worst(rest);
        assert forall|i: int| 0 <= i < codes.len() implies #[trigger] codes[i] <= max_code(codes) by {
            if i < codes.len() - 1 {
                assert(codes[i] == rest[i]);
            }
        }
        if codes.last() > max_code(rest) {
            assert(codes[codes.len() - 1] == max_code(codes));
        } else if rest.len() > 0 {
            let j = choose|j: int| 0 <= j < rest.len() && rest[j] == max_code(rest);
            assert(codes[j] == max_code(codes));
        } else {
            assert(codes[0] == max_code(codes));
        }
    }
}

/// `x` held between `lo` and `hi` (with `lo <= hi`).
pub open spec fn clamp(x: int, lo: int, hi: int) -> int {
    if x < lo {
        lo
    } else if x > hi {
        hi
    } else {
        x
    }
}

/// How many sims to actually use: the requested parallelism, capped by
/// the sims available, and never zero.
pub fn effective_sim_count(requested_parallel: usize, devices_available: usize) -> (n: usize)
    ensures
        n == clamp(
            requested_parallel as int,
            1,
            if devices_available < 1 { 1 } else { devices_available as int },
        ),
        1 <= n,
        devices_available > 0 ==> n <= devices_available,
{
    let cap = if devices_available < 1 { 1 } else { devices_available };
    if requested_parallel < 1 {
        1
    } else if requested_parallel > cap {
        cap
    } else {
        requested_parallel
    }
}

/// The largest code of a sequence, or 0 for none.
pub open spec fn max_code(codes: Seq<u8>) -> u8
    decreases codes.len(),
{
    if codes.len() == 0 {
        0
    } else {
        let rest = max_code(codes.drop_last());
        if codes.last() > rest { codes.last() } else { rest }
    }
}

/// The batch exit code: the worst of the shards. An empty set (no shard
/// ran) is a success.
pub fn aggregate_exit(shard_codes: &[u8]) -> (code: u8)
    ensures
        code == max_code(shard_codes@),
{
    let mut best: u8 = 0;
    let mut i: usize = 0;
    while i < shard_codes.len()
        invariant
            i <= shard_codes@.len(),
            best == max_code(shard_codes@.take(i as int)),
        decreases shard_codes@.len() - i,
    {
        assert(shard_codes@.take(i + 1).drop_last() =~= shard_codes@.take(i as int));
        if shard_codes[i] > best {
            best = shard_codes[i];
        }
        i = i + 1;
    }
    assert(shard_codes@.take(i as int) =~= shard_codes@);
    best
}


/// The argv of one shard's child `smix run`: the shard's flows, pinned
/// to the sim's UDID, then the parent's pass-through flags verbatim.
/// `--parallel` / `--also-device` are not added: the child runs one sim.
pub fn child_argv(shard_flows: &[String], udid: &str, passthrough: &[String]) -> (argv: Vec<String>)
    ensures
        strs(argv@) == seq!["run"@] + strs(shard_flows@) + seq!["--device"@, udid@] + strs(
            passthrough@,
        ),
{
    let mut argv: Vec<String> = Vec::new();
    argv.push(owned("run"));
    extend_strings(&mut argv, shard_flows);
    let ghost mid = strs(argv@);
    argv.push(owned("--device"));
    argv.push(owned(udid));
    assert(strs(argv@) =~= mid + seq!["--device"@, udid@]);
    extend_strings(&mut argv, passthrough);
    assert(strs(argv@) =~= seq!["run"@] + strs(shard_flows@) + seq!["--device"@, udid@] + strs(
        passthrough@,
    ));
    argv
}

/// The exit code a child process reports as one byte: a signal-killed
/// child has no code and counts as 1; other codes are held to `0..=255`.
pub fn exit_byte(code: Option<i32>) -> (b: u8)
    ensures
        b == match code {
            None => 1int,
            Some(c) => clamp(c as int, 0, 255),
        },
{
    match code {
        None => 1,
        Some(c) => {
            if c < 0 {
                0
            } else if c > 255 {
                255
            } else {
                c as u8
            }
        },
    }
}


/// Which platform a run drives.
#[derive(Debug, Clone, Copy, PartialEq, Eq, Structural)]
pub enum RunPlatform {
    Ios,
    Android,
}

/// The `smix run` flags a child run (a shard here, or a node's leaf in a
/// federation) has to be given: everything per-run that is not read
/// from config, env or the flows themselves.
#[derive(Debug, Clone)]
pub struct RunFlags {
    pub bundle_id: Option<String>,
    pub no_launch: bool,
    pub animations: bool,
    pub activate: bool,
    pub verbose: bool,
    pub fail_fast: bool,
    pub retry: u32,
    pub platform: RunPlatform,
    pub apps_config: Option<String>,
    /// `--env KEY=VALUE` pairs.
    pub env: Vec<(String, String)>,
}

/// Each `--env` pair as the two tokens a child takes.
pub open spec fn env_tokens(env: Seq<(String, String)>) -> Seq<Seq<char>>
    decreases env.len(),
{
    if env.len() == 0 {
        seq![]
    } else {
        env_tokens(env.drop_last()) + seq!["--env"@, env.last().0@ + "="@ + env.last().1@]
    }
}

/// A flag when it is on.
pub open spec fn flag(on: bool, t: Seq<char>) -> Seq<Seq<char>> {
    if on {
        seq![t]
    } else {
        seq![]
    }
}

/// The per-run switches, in a fixed order.
pub open spec fn switch_tokens(f: RunFlags) -> Seq<Seq<char>> {
    (match f.bundle_id {
        Some(b) => seq!["--bundle-id"@, b@],
        None => seq![],
    }) + flag(f.no_launch, "--no-launch"@) + flag(f.animations, "--animations"@) + flag(
        f.activate,
        "--activate"@,
    ) + flag(f.verbose, "--verbose"@) + flag(f.fail_fast, "--fail-fast"@) + (if f.retry != 1 {
        seq!["--retry"@, decimal(f.retry as nat)]
    } else {
        seq![]
    })
}

/// The platform and where configuration and artifacts are.
pub open spec fn setting_tokens(f: RunFlags, debug_output: Option<Seq<char>>) -> Seq<Seq<char>> {
    seq![
        "--platform"@,
        match f.platform {
            RunPlatform::Ios => "ios"@,
            RunPlatform::Android => "android"@,
        },
    ] + (match f.apps_config {
        Some(a) => seq!["--apps-config"@, a@],
        None => seq![],
    }) + (match debug_output {
        Some(d) => seq!["--debug-output"@, d],
        None => seq![],
    })
}

/// The flags handed on to a child run, in a fixed order, with where it
/// is to write its artifacts.
pub open spec fn passthrough_tokens(f: RunFlags, debug_output: Option<Seq<char>>) -> Seq<Seq<char>> {
    switch_tokens(f) + setting_tokens(f, debug_output) + env_tokens(f.env@)
}

pub open spec fn opt_str(o: Option<&str>) -> Option<Seq<char>> {
    match o {
        Some(s) => Some(s@),
        None => None,
    }
}

fn push_token(v: &mut Vec<String>, t: String)
    ensures
        strs(final(v)@) == strs(old(v)@).push(t@),
{
    v.push(t);
    assert(strs(final(v)@) =~= strs(old(v)@).push(t@));
}

fn push_if(v: &mut Vec<String>, on: bool, t: &str)
    ensures
        strs(final(v)@) == strs(old(v)@) + flag(on, t@),
{
    if on {
        push_token(v, owned(t));
    } else {
        assert(strs(old(v)@) + Seq::<Seq<char>>::empty() =~= strs(old(v)@));
    }
}

fn bundle_part(f: &RunFlags) -> (r: Vec<String>)
    ensures
        strs(r@) == (match f.bundle_id {
            Some(b) => seq!["--bundle-id"@, b@],
            None => Seq::<Seq<char>>::empty(),
        }),
{
    let mut r: Vec<String> = Vec::new();
    match &f.bundle_id {
        Some(b) => {
            push_token(&mut r, owned("--bundle-id"));
            push_token(&mut r, owned(b.as_str()));
            assert(strs(r@) =~= seq!["--bundle-id"@, b@]);
        },
        None => {
            assert(strs(r@) =~= Seq::<Seq<char>>::empty());
        },
    }
    r
}

fn retry_part(retry: u32) -> (r: Vec<String>)
    ensures
        strs(r@) == (if retry != 1 {
            seq!["--retry"@, decimal(retry as nat)]
        } else {
            Seq::<Seq<char>>::empty()
        }),
{
    let mut r: Vec<String> = Vec::new();
    if retry != 1 {
        push_token(&mut r, owned("--retry"));
        push_token(&mut r, decimal_string(retry as usize));
        assert(strs(r@) =~= seq!["--retry"@, decimal(retry as nat)]);
    } else {
        assert(strs(r@) =~= Seq::<Seq<char>>::empty());
    }
    r
}

fn switches(f: &RunFlags) -> (r: Vec<String>)
    ensures
        strs(r@) == switch_tokens(*f),
{
    let mut r = bundle_part(f);
    push_if(&mut r, f.no_launch, "--no-launch");
    push_if(&mut r, f.animations, "--animations");
    push_if(&mut r, f.activate, "--activate");
    push_if(&mut r, f.verbose, "--verbose");
    push_if(&mut r, f.fail_fast, "--fail-fast");
    let t = retry_part(f.retry);
    extend_strings(&mut r, t.as_slice());
    r
}

fn settings(f: &RunFlags, debug_output: Option<&str>) -> (r: Vec<String>)
    ensures
        strs(r@) == setting_tokens(*f, opt_str(debug_output)),
{
    let mut r: Vec<String> = Vec::new();
    push_token(&mut r, owned("--platform"));
    match f.platform {
        RunPlatform::Ios => push_token(&mut r, owned("ios")),
        RunPlatform::Android => push_token(&mut r, owned("android")),
    }
    match &f.apps_config {
        Some(a) => {
            push_token(&mut r, owned("--apps-config"));
            push_token(&mut r, owned(a.as_str()));
        },
        None => {},
    }
    match debug_output {
        Some(d) => {
            push_token(&mut r, owned("--debug-output"));
            push_token(&mut r, owned(d));
        },
        None => {},
    }
    assert(strs(r@) =~= setting_tokens(*f, opt_str(debug_output)));
    r
}

fn env_pairs(env: &Vec<(String, String)>) -> (r: Vec<String>)
    ensures
        strs(r@) == env_tokens(env@),
{
    let mut r: Vec<String> = Vec::new();
    let mut i: usize = 0;
    assert(env@.take(0) =~= Seq::<(String, String)>::empty());
    while i < env.len()
        invariant
            i <= env@.len(),
            strs(r@) == env_tokens(env@.take(i as int)),
        decreases env@.len() - i,
    {
        assert(env@.take(i + 1).drop_last() =~= env@.take(i as int));
        assert(env@.take(i + 1).last() == env@[i as int]);
        push_token(&mut r, owned("--env"));
        let mut kv = owned(env[i].0.as_str());
        kv.append("=");
        kv.append(env[i].1.as_str());
        push_token(&mut r, kv);
        i = i + 1;
    }
    assert(env@.take(i as int) =~= env@);
    r
}

/// The flags a child `smix run` is given, `debug_output` being where
/// it writes its artifacts.
pub fn run_passthrough(f: &RunFlags, debug_output: Option<&str>) -> (r: Vec<String>)
    ensures
        strs(r@) == passthrough_tokens(*f, opt_str(debug_output)),
{
    let mut r = switches(f);
    let s = settings(f, debug_output);
    extend_strings(&mut r, s.as_slice());
    let e = env_pairs(&f.env);
    extend_strings(&mut r, e.as_slice());
    r
}

/// A share of the flows: the flows of some bucket that simulator `b`
/// of `n` runs, in its order.
pub open spec fn is_share(share: Seq<Seq<char>>, flows: Seq<String>, n: nat, b: nat) -> bool {
    exists|bucket: Seq<usize>| is_bucket(bucket, flows.len(), n, b) && share == #[trigger] flows_at(bucket, flows)
}

/// The flows at the given indices, by their characters.
pub open spec fn flows_at(bucket: Seq<usize>, flows: Seq<String>) -> Seq<Seq<char>> {
    bucket.map_values(|j: usize| flows[j as int]@)
}

proof fn lemma_bucket_entry_in_range(bucket: Seq<usize>, flow_count: nat, n: nat, b: nat, k: int)
    requires
        is_bucket(bucket, flow_count, n, b),
        0 <= k < bucket.len(),
    ensures
        bucket[k] < flow_count,
{
    let last = bucket.len() - 1;
    assert(bucket[k] == b + k * n);
    assert(bucket[last] == b + last * n);
    assert(k * n <= last * n) by (nonlinear_arith)
        requires
            0 <= k <= last,
            n >= 0,
    ;
}

/// Pair each of the first `sims` devices with its round-robin share of
/// the flows; no devices, no shards.
pub fn shard_assignments(devices: &[String], flows: &[String], sims: usize) -> (r: Vec<(String, Vec<String>)>)
    requires
        sims <= devices@.len(),
    ensures
        r@.len() == sims,
        forall|i: int|
            0 <= i < r@.len() ==> (#[trigger] r@[i]).0@ == devices@[i]@ && is_share(
                strs(r@[i].1@),
                flows@,
                sims as nat,
                i as nat,
            ),
{
    let buckets = shard_flows(flows.len(), sims);
    let mut r: Vec<(String, Vec<String>)> = Vec::new();
    let mut i: usize = 0;
    while i < buckets.len()
        invariant
            i <= buckets@.len(),
            buckets@.len() == sims,
            sims <= devices@.len(),
            forall|b: int| 0 <= b < buckets@.len() ==> is_bucket(#[trigger] buckets@[b]@, flows@.len() as nat, sims as nat, b as nat),
            r@.len() == i,
            forall|x: int|
                0 <= x < i ==> (#[trigger] r@[x]).0@ == devices@[x]@ && is_share(
                    strs(r@[x].1@),
                    flows@,
                    sims as nat,
                    x as nat,
                ),
        decreases buckets@.len() - i,
    {
        let ghost bk = buckets@[i as int]@;
        assert(is_bucket(bk, flows@.len() as nat, sims as nat, i as nat));
        let mut share: Vec<String> = Vec::new();
        let mut k: usize = 0;
        while k < buckets[i].len()
            invariant
                i < buckets@.len(),
                bk == buckets@[i as int]@,
                k <= bk.len(),
                is_bucket(bk, flows@.len() as nat, sims as nat, i as nat),
                strs(share@) == bk.take(k as int).map_values(|j: usize| flows@[j as int]@),
            decreases bk.len() - k,
        {
            let j = buckets[i][k];
            proof {
                lemma_bucket_entry_in_range(bk, flows@.len() as nat, sims as nat, i as nat, k as int);
            }
            let ghost before = strs(share@);
            share.push(owned(flows[j].as_str()));
            assert(strs(share@) =~= before.push(flows@[j as int]@));
            assert(bk.take(k + 1).map_values(|j: usize| flows@[j as int]@) =~= bk.take(k as int).map_values(
                |j: usize| flows@[j as int]@,
            ).push(flows@[j as int]@));
            k = k + 1;
        }
        assert(bk.take(k as int) =~= bk);
        assert(strs(share@) == flows_at(bk, flows@));
        assert(is_share(strs(share@), flows@, sims as nat, i as nat));
        let ghost old_r = r@;
        r.push((owned(devices[i].as_str()), share));
        assert forall|x: int| 0 <= x < i + 1 implies (#[trigger] r@[x]).0@ == devices@[x]@ && is_share(
            strs(r@[x].1@),
            flows@,
            sims as nat,
            x as nat,
        ) by {
            if x < i {
                assert(r@[x] == old_r[x]);
            }
        }
        i = i + 1;
    }
    r
}


/// `on` is `off` with the one token `t` put in somewhere.
pub open spec fn one_token_more(on: Seq<Seq<char>>, off: Seq<Seq<char>>, t: Seq<char>) -> bool {
    exists|k: int| 0 <= k < on.len() && on[k] == t && on.remove(k) == off
}

proof fn lemma_flag_on_off(a: Seq<Seq<char>>, t: Seq<char>)
    ensures
        one_token_more(a + flag(true, t), a + flag(false, t), t),
{
    let on = a + flag(true, t);
    let k = a.len() as int;
    assert(on[k] == t);
    assert(on.remove(k) =~= a + flag(false, t));
}

proof fn lemma_append_right(on: Seq<Seq<char>>, off: Seq<Seq<char>>, t: Seq<char>, x: Seq<Seq<char>>)
    requires
        one_token_more(on, off, t),
    ensures
        one_token_more(on + x, off + x, t),
{
    let k = choose|k: int| 0 <= k < on.len() && on[k] == t && on.remove(k) == off;
    assert((on + x)[k] == t);
    assert((on + x).remove(k) =~= on.remove(k) + x);
}

proof fn lemma_switch_no_launch(f: RunFlags, d: Option<Seq<char>>)
    ensures
        one_token_more(
            passthrough_tokens(RunFlags { no_launch: true, ..f }, d),
            passthrough_tokens(RunFlags { no_launch: false, ..f }, d),
            "--no-launch"@,
        ),
{
    let bp = match f.bundle_id {
        Some(b) => seq!["--bundle-id"@, b@],
        None => Seq::<Seq<char>>::empty(),
    };
    let rp = if f.retry != 1 {
        seq!["--retry"@, decimal(f.retry as nat)]
    } else {
        Seq::<Seq<char>>::empty()
    };
    let nl = flag(f.no_launch, "--no-launch"@);
    let an = flag(f.animations, "--animations"@);
    let ac = flag(f.activate, "--activate"@);
    let vb = flag(f.verbose, "--verbose"@);
    let ff = flag(f.fail_fast, "--fail-fast"@);
    let g = RunFlags { no_launch: true, ..f };
    let h = RunFlags { no_launch: false, ..f };
    let a = bp;
    assert(switch_tokens(g) == (((((a + flag(true, "--no-launch"@)) + an) + ac) + vb) + ff) + rp);
    assert(switch_tokens(h) == (((((a + flag(false, "--no-launch"@)) + an) + ac) + vb) + ff) + rp);
    assert(setting_tokens(g, d) == setting_tokens(f, d));
    assert(setting_tokens(h, d) == setting_tokens(f, d));
    assert(env_tokens(g.env@) == env_tokens(f.env@));
    assert(env_tokens(h.env@) == env_tokens(f.env@));
    assert(one_token_more(((((((a + flag(true, "--no-launch"@)) + an) + ac) + vb) + ff) + rp) + setting_tokens(f, d) + env_tokens(f.env@), ((((((a + flag(false, "--no-launch"@)) + an) + ac) + vb) + ff) + rp) + setting_tokens(f, d) + env_tokens(f.env@), "--no-launch"@)) by {
        lemma_flag_on_off(a, "--no-launch"@);
        let on0 = a + flag(true, "--no-launch"@);
        let off0 = a + flag(false, "--no-launch"@);
        lemma_append_right(on0, off0, "--no-launch"@, an);
        let on1 = on0 + an;
        let off1 = off0 + an;
        lemma_append_right(on1, off1, "--no-launch"@, ac);
        let on2 = on1 + ac;
        let off2 = off1 + ac;
        lemma_append_right(on2, off2, "--no-launch"@, vb);
        let on3 = on2 + vb;
        let off3 = off2 + vb;
        lemma_append_right(on3, off3, "--no-launch"@, ff);
        let on4 = on3 + ff;
        let off4 = off3 + ff;
        lemma_append_right(on4, off4, "--no-launch"@, rp);
        let on5 = on4 + rp;
        let off5 = off4 + rp;
        lemma_append_right(on5, off5, "--no-launch"@, setting_tokens(f, d));
        let on6 = on5 + setting_tokens(f, d);
        let off6 = off5 + setting_tokens(f, d);
        lemma_append_right(on6, off6, "--no-launch"@, env_tokens(f.env@));
        let on7 = on6 + env_tokens(f.env@);
        let off7 = off6 + env_tokens(f.env@);
    }
}

proof fn lemma_switch_animations(f: RunFlags, d: Option<Seq<char>>)
    ensures
        one_token_more(
            passthrough_tokens(RunFlags { animations: true, ..f }, d),
            passthrough_tokens(RunFlags { animations: false, ..f }, d),
            "--animations"@,
        ),
{
    let bp = match f.bundle_id {
        Some(b) => seq!["--bundle-id"@, b@],
        None => Seq::<Seq<char>>::empty(),
    };
    let rp = if f.retry != 1 {
        seq!["--retry"@, decimal(f.retry as nat)]
    } else {
        Seq::<Seq<char>>::empty()
    };
    let nl = flag(f.no_launch, "--no-launch"@);
    let an = flag(f.animations, "--animations"@);
    let ac = flag(f.activate, "--activate"@);
    let vb = flag(f.verbose, "--verbose"@);
    let ff = flag(f.fail_fast, "--fail-fast"@);
    let g = RunFlags { animations: true, ..f };
    let h = RunFlags { animations: false, ..f };
    let a = bp + nl;
    assert(switch_tokens(g) == ((((a + flag(true, "--animations"@)) + ac) + vb) + ff) + rp);
    assert(switch_tokens(h) == ((((a + flag(false, "--animations"@)) + ac) + vb) + ff) + rp);
    assert(setting_tokens(g, d) == setting_tokens(f, d));
    assert(setting_tokens(h, d) == setting_tokens(f, d));
    assert(env_tokens(g.env@) == env_tokens(f.env@));
    assert(env_tokens(h.env@) == env_tokens(f.env@));
    assert(one_token_more((((((a + flag(true, "--animations"@)) + ac) + vb) + ff) + rp) + setting_tokens(f, d) + env_tokens(f.env@), (((((a + flag(false, "--animations"@)) + ac) + vb) + ff) + rp) + setting_tokens(f, d) + env_tokens(f.env@), "--animations"@)) by {
        lemma_flag_on_off(a, "--animations"@);
        let on0 = a + flag(true, "--animations"@);
        let off0 = a + flag(false, "--animations"@);
        lemma_append_right(on0, off0, "--animations"@, ac);
        let on1 = on0 + ac;
        let off1 = off0 + ac;
        lemma_append_right(on1, off1, "--animations"@, vb);
        let on2 = on1 + vb;
        let off2 = off1 + vb;
        lemma_append_right(on2, off2, "--animations"@, ff);
        let on3 = on2 + ff;
        let off3 = off2 + ff;
        lemma_append_right(on3, off3, "--animations"@, rp);
        let on4 = on3 + rp;
        let off4 = off3 + rp;
        lemma_append_right(on4, off4, "--animations"@, setting_tokens(f, d));
        let on5 = on4 + setting_tokens(f, d);
        let off5 = off4 + setting_tokens(f, d);
        lemma_append_right(on5, off5, "--animations"@, env_tokens(f.env@));
        let on6 = on5 + env_tokens(f.env@);
        let off6 = off5 + env_tokens(f.env@);
    }
}

proof fn lemma_switch_activate(f: RunFlags, d: Option<Seq<char>>)
    ensures
        one_token_more(
            passthrough_tokens(RunFlags { activate: true, ..f }, d),
            passthrough_tokens(RunFlags { activate: false, ..f }, d),
            "--activate"@,
        ),
{
    let bp = match f.bundle_id {
        Some(b) => seq!["--bundle-id"@, b@],
        None => Seq::<Seq<char>>::empty(),
    };
    let rp = if f.retry != 1 {
        seq!["--retry"@, decimal(f.retry as nat)]
    } else {
        Seq::<Seq<char>>::empty()
    };
    let nl = flag(f.no_launch, "--no-launch"@);
    let an = flag(f.animations, "--animations"@);
    let ac = flag(f.activate, "--activate"@);
    let vb = flag(f.verbose, "--verbose"@);
    let ff = flag(f.fail_fast, "--fail-fast"@);
    let g = RunFlags { activate: true, ..f };
    let h = RunFlags { activate: false, ..f };
    let a = bp + nl + an;
    assert(switch_tokens(g) == (((a + flag(true, "--activate"@)) + vb) + ff) + rp);
    assert(switch_tokens(h) == (((a + flag(false, "--activate"@)) + vb) + ff) + rp);
    assert(setting_tokens(g, d) == setting_tokens(f, d));
    assert(setting_tokens(h, d) == setting_tokens(f, d));
    assert(env_tokens(g.env@) == env_tokens(f.env@));
    assert(env_tokens(h.env@) == env_tokens(f.env@));
    assert(one_token_more(((((a + flag(true, "--activate"@)) + vb) + ff) + rp) + setting_tokens(f, d) + env_tokens(f.env@), ((((a + flag(false, "--activate"@)) + vb) + ff) + rp) + setting_tokens(f, d) + env_tokens(f.env@), "--activate"@)) by {
        lemma_flag_on_off(a, "--activate"@);
        let on0 = a + flag(true, "--activate"@);
        let off0 = a + flag(false, "--activate"@);
        lemma_append_right(on0, off0, "--activate"@, vb);
        let on1 = on0 + vb;
        let off1 = off0 + vb;
        lemma_append_right(on1, off1, "--activate"@, ff);
        let on2 = on1 + ff;
        let off2 = off1 + ff;
        lemma_append_right(on2, off2, "--activate"@, rp);
        let on3 = on2 + rp;
        let off3 = off2 + rp;
        lemma_append_right(on3, off3, "--activate"@, setting_tokens(f, d));
        let on4 = on3 + setting_tokens(f, d);
        let off4 = off3 + setting_tokens(f, d);
        lemma_append_right(on4, off4, "--activate"@, env_tokens(f.env@));
        let on5 = on4 + env_tokens(f.env@);
        let off5 = off4 + env_tokens(f.env@);
    }
}

proof fn lemma_switch_verbose(f: RunFlags, d: Option<Seq<char>>)
    ensures
        one_token_more(
            passthrough_tokens(RunFlags { verbose: true, ..f }, d),
            passthrough_tokens(RunFlags { verbose: false, ..f }, d),
            "--verbose"@,
        ),
{
    let bp = match f.bundle_id {
        Some(b) => seq!["--bundle-id"@, b@],
        None => Seq::<Seq<char>>::empty(),
    };
    let rp = if f.retry != 1 {
        seq!["--retry"@, decimal(f.retry as nat)]
    } else {
        Seq::<Seq<char>>::empty()
    };
    let nl = flag(f.no_launch, "--no-launch"@);
    let an = flag(f.animations, "--animations"@);
    let ac = flag(f.activate, "--activate"@);
    let vb = flag(f.verbose, "--verbose"@);
    let ff = flag(f.fail_fast, "--fail-fast"@);
    let g = RunFlags { verbose: true, ..f };
    let h = RunFlags { verbose: false, ..f };
    let a = bp + nl + an + ac;
    assert(switch_tokens(g) == ((a + flag(true, "--verbose"@)) + ff) + rp);
    assert(switch_tokens(h) == ((a + flag(false, "--verbose"@)) + ff) + rp);
    assert(setting_tokens(g, d) == setting_tokens(f, d));
    assert(setting_tokens(h, d) == setting_tokens(f, d));
    assert(env_tokens(g.env@) == env_tokens(f.env@));
    assert(env_tokens(h.env@) == env_tokens(f.env@));
    assert(one_token_more((((a + flag(true, "--verbose"@)) + ff) + rp) + setting_tokens(f, d) + env_tokens(f.env@), (((a + flag(false, "--verbose"@)) + ff) + rp) + setting_tokens(f, d) + env_tokens(f.env@), "--verbose"@)) by {
        lemma_flag_on_off(a, "--verbose"@);
        let on0 = a + flag(true, "--verbose"@);
        let off0 = a + flag(false, "--verbose"@);
        lemma_append_right(on0, off0, "--verbose"@, ff);
        let on1 = on0 + ff;
        let off1 = off0 + ff;
        lemma_append_right(on1, off1, "--verbose"@, rp);
        let on2 = on1 + rp;
        let off2 = off1 + rp;
        lemma_append_right(on2, off2, "--verbose"@, setting_tokens(f, d));
        let on3 = on2 + setting_tokens(f, d);
        let off3 = off2 + setting_tokens(f, d);
        lemma_append_right(on3, off3, "--verbose"@, env_tokens(f.env@));
        let on4 = on3 + env_tokens(f.env@);
        let off4 = off3 + env_tokens(f.env@);
    }
}

proof fn lemma_switch_fail_fast(f: RunFlags, d: Option<Seq<char>>)
    ensures
        one_token_more(
            passthrough_tokens(RunFlags { fail_fast: true, ..f }, d),
            passthrough_tokens(RunFlags { fail_fast: false, ..f }, d),
            "--fail-fast"@,
        ),
{
    let bp = match f.bundle_id {
        Some(b) => seq!["--bundle-id"@, b@],
        None => Seq::<Seq<char>>::empty(),
    };
    let rp = if f.retry != 1 {
        seq!["--retry"@, decimal(f.retry as nat)]
    } else {
        Seq::<Seq<char>>::empty()
    };
    let nl = flag(f.no_launch, "--no-launch"@);
    let an = flag(f.animations, "--animations"@);
    let ac = flag(f.activate, "--activate"@);
    let vb = flag(f.verbose, "--verbose"@);
    let ff = flag(f.fail_fast, "--fail-fast"@);
    let g = RunFlags { fail_fast: true, ..f };
    let h = RunFlags { fail_fast: false, ..f };
    let a = bp + nl + an + ac + vb;
    assert(switch_tokens(g) == (a + flag(true, "--fail-fast"@)) + rp);
    assert(switch_tokens(h) == (a + flag(false, "--fail-fast"@)) + rp);
    assert(setting_tokens(g, d) == setting_tokens(f, d));
    assert(setting_tokens(h, d) == setting_tokens(f, d));
    assert(env_tokens(g.env@) == env_tokens(f.env@));
    assert(env_tokens(h.env@) == env_tokens(f.env@));
    assert(one_token_more(((a + flag(true, "--fail-fast"@)) + rp) + setting_tokens(f, d) + env_tokens(f.env@), ((a + flag(false, "--fail-fast"@)) + rp) + setting_tokens(f, d) + env_tokens(f.env@), "--fail-fast"@)) by {
        lemma_flag_on_off(a, "--fail-fast"@);
        let on0 = a + flag(true, "--fail-fast"@);
        let off0 = a + flag(false, "--fail-fast"@);
        lemma_append_right(on0, off0, "--fail-fast"@, rp);
        let on1 = on0 + rp;
        let off1 = off0 + rp;
        lemma_append_right(on1, off1, "--fail-fast"@, setting_tokens(f, d));
        let on2 = on1 + setting_tokens(f, d);
        let off2 = off1 + setting_tokens(f, d);
        lemma_append_right(on2, off2, "--fail-fast"@, env_tokens(f.env@));
        let on3 = on2 + env_tokens(f.env@);
        let off3 = off2 + env_tokens(f.env@);
    }
}

/// Each on/off switch of a run is handed on to the child runs exactly
/// when it is set, whatever the other flags: setting it adds its one
/// token to what is handed on, and nothing else changes.
pub proof fn lemma_each_switch_is_handed_on_exactly_when_set(f: RunFlags, d: Option<Seq<char>>)
    ensures
        one_token_more(
            passthrough_tokens(RunFlags { no_launch: true, ..f }, d),
            passthrough_tokens(RunFlags { no_launch: false, ..f }, d),
            "--no-launch"@,
        ),
        one_token_more(
            passthrough_tokens(RunFlags { animations: true, ..f }, d),
            passthrough_tokens(RunFlags { animations: false, ..f }, d),
            "--animations"@,
        ),
        one_token_more(
            passthrough_tokens(RunFlags { activate: true, ..f }, d),
            passthrough_tokens(RunFlags { activate: false, ..f }, d),
            "--activate"@,
        ),
        one_token_more(
            passthrough_tokens(RunFlags { verbose: true, ..f }, d),
            passthrough_tokens(RunFlags { verbose: false, ..f }, d),
            "--verbose"@,
        ),
        one_token_more(
            passthrough_tokens(RunFlags { fail_fast: true, ..f }, d),
            passthrough_tokens(RunFlags { fail_fast: false, ..f }, d),
            "--fail-fast"@,
        ),
{
    lemma_switch_no_launch(f, d);
    lemma_switch_animations(f, d);
    lemma_switch_activate(f, d);
    lemma_switch_verbose(f, d);
    lemma_switch_fail_fast(f, d);
}


proof fn lemma_chain_front(
    p: Seq<Seq<char>>,
    u1: Seq<Seq<char>>,
    u2: Seq<Seq<char>>,
    u3: Seq<Seq<char>>,
    u4: Seq<Seq<char>>,
    u5: Seq<Seq<char>>,
    u6: Seq<Seq<char>>,
    u7: Seq<Seq<char>>,
    u8: Seq<Seq<char>>,
)
    ensures
        (((((((p + u1) + u2) + u3) + u4) + u5) + u6) + u7) + u8 == p + ((((((((Seq::<Seq<char>>::empty() + u1) + u2)
            + u3) + u4) + u5) + u6) + u7) + u8),
{
    assert((((((((p + u1) + u2) + u3) + u4) + u5) + u6) + u7) + u8 =~= p + ((((((((Seq::<Seq<char>>::empty() + u1)
        + u2) + u3) + u4) + u5) + u6) + u7) + u8));
}

proof fn lemma_put_in_pair(x: Seq<Seq<char>>, r: Seq<Seq<char>>, st: Seq<Seq<char>>, en: Seq<Seq<char>>) -> (k: int)
    ensures
        0 <= k <= (((x + Seq::<Seq<char>>::empty()) + st) + en).len(),
        ((x + r) + st) + en == (((x + Seq::<Seq<char>>::empty()) + st) + en).take(k) + r + (((x + Seq::<
            Seq<char>,
        >::empty()) + st) + en).skip(k),
{
    let plain = ((x + Seq::<Seq<char>>::empty()) + st) + en;
    let k = x.len() as int;
    assert(plain.take(k) =~= x);
    assert(plain.skip(k) =~= st + en);
    assert(((x + r) + st) + en =~= plain.take(k) + r + plain.skip(k));
    k
}

/// A bundle id is handed on as `--bundle-id <id>` at the front of what
/// the child runs get, and nothing else changes.
pub proof fn lemma_the_bundle_id_is_handed_on_first(f: RunFlags, b: String, d: Option<Seq<char>>)
    ensures
        passthrough_tokens(RunFlags { bundle_id: Some(b), ..f }, d) == seq!["--bundle-id"@, b@]
            + passthrough_tokens(RunFlags { bundle_id: None, ..f }, d),
{
    let g = RunFlags { bundle_id: Some(b), ..f };
    let h = RunFlags { bundle_id: None, ..f };
    let nl = flag(f.no_launch, "--no-launch"@);
    let an = flag(f.animations, "--animations"@);
    let ac = flag(f.activate, "--activate"@);
    let vb = flag(f.verbose, "--verbose"@);
    let ff = flag(f.fail_fast, "--fail-fast"@);
    let rp = if f.retry != 1 {
        seq!["--retry"@, decimal(f.retry as nat)]
    } else {
        Seq::<Seq<char>>::empty()
    };
    let p = seq!["--bundle-id"@, b@];
    let e = Seq::<Seq<char>>::empty();
    assert(switch_tokens(g) == (((((p + nl) + an) + ac) + vb) + ff) + rp);
    assert(switch_tokens(h) == (((((e + nl) + an) + ac) + vb) + ff) + rp);
    assert(setting_tokens(g, d) == setting_tokens(f, d));
    assert(setting_tokens(h, d) == setting_tokens(f, d));
    assert(env_tokens(g.env@) == env_tokens(f.env@));
    assert(env_tokens(h.env@) == env_tokens(f.env@));
    lemma_chain_front(p, nl, an, ac, vb, ff, rp, setting_tokens(f, d), env_tokens(f.env@));
}

/// A retry count other than one is handed on as `--retry <n>`, and one
/// (the default) is not handed on: a run with `n` retries gets the same
/// tokens as one with the default, with `--retry <n>` put in.
pub proof fn lemma_a_retry_count_is_handed_on_unless_default(f: RunFlags, n: u32, d: Option<Seq<char>>)
    requires
        n != 1,
    ensures
        ({
            let with_n = passthrough_tokens(RunFlags { retry: n, ..f }, d);
            let plain = passthrough_tokens(RunFlags { retry: 1, ..f }, d);
            exists|k: int|
                0 <= k <= plain.len() && with_n == plain.take(k) + seq!["--retry"@, decimal(n as nat)] + plain.skip(k)
        }),
{
    let g = RunFlags { retry: n, ..f };
    let h = RunFlags { retry: 1, ..f };
    let bp = match f.bundle_id {
        Some(b) => seq!["--bundle-id"@, b@],
        None => Seq::<Seq<char>>::empty(),
    };
    let x = ((((bp + flag(f.no_launch, "--no-launch"@)) + flag(f.animations, "--animations"@)) + flag(
        f.activate,
        "--activate"@,
    )) + flag(f.verbose, "--verbose"@)) + flag(f.fail_fast, "--fail-fast"@);
    let r = seq!["--retry"@, decimal(n as nat)];
    assert(switch_tokens(g) == x + r);
    assert(switch_tokens(h) == x + Seq::<Seq<char>>::empty());
    assert(setting_tokens(g, d) == setting_tokens(f, d));
    assert(setting_tokens(h, d) == setting_tokens(f, d));
    assert(env_tokens(g.env@) == env_tokens(f.env@));
    assert(env_tokens(h.env@) == env_tokens(f.env@));
    let k = lemma_put_in_pair(x, r, setting_tokens(f, d), env_tokens(f.env@));
    let plain = passthrough_tokens(h, d);
    assert(passthrough_tokens(g, d) == plain.take(k) + r + plain.skip(k));
}

} // verus!
