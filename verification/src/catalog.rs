//! Editing rules for the station's library: scripts, spot reels and
//! schedule activation, and how scripts are attached to content.
use vstd::prelude::*;
use crate::bumper::{split_chars, split_on};
use crate::text::{chars_of, is_prefix, owned, push_all, push_signed_decimal, push_str, signed_decimal, str_eq, string_from, trim, trim_chars};
use crate::tts::{parse_i32, parsed_i32};

verus! {

/// The kinds a script may have.
pub open spec fn script_type_ok(t: Seq<char>) -> bool {
    t == "transformer"@ || t == "content_loader"@ || t == "server_context"@
}

/// Whether a script kind is one of the known ones.
pub fn is_valid_script_type(t: &str) -> (b: bool)
    ensures
        b == script_type_ok(t@),
{
    str_eq(t, "transformer") || str_eq(t, "content_loader") || str_eq(t, "server_context")
}

/// The kinds a spot reel item may have.
pub open spec fn reel_item_type_ok(t: Seq<char>) -> bool {
    t == "image"@ || t == "video"@ || t == "web"@
}

/// Whether a spot reel item kind is one of the known ones.
pub fn is_valid_reel_item_type(t: &str) -> (b: bool)
    ensures
        b == reel_item_type_ok(t@),
{
    str_eq(t, "image") || str_eq(t, "video") || str_eq(t, "web")
}

/// The position a new item takes in a reel: after the last one, or first.
pub fn next_reel_position(max_position: Option<i32>) -> (r: i32)
    requires
        max_position matches Some(p) ==> p < i32::MAX,
    ensures
        r == (match max_position {
            Some(p) => p + 1,
            None => 0,
        }),
{
    match max_position {
        Some(p) => p + 1,
        None => 0,
    }
}

pub open spec fn sum_secs(d: Seq<i32>) -> int
    decreases d.len(),
{
    if d.len() == 0 { 0 } else { sum_secs(d.drop_last()) + d.last() }
}

/// The total running time of a reel, in seconds.
pub fn total_duration_secs(durations: &[i32]) -> (r: i64)
    requires
        durations@.len() <= u32::MAX,
    ensures
        r == sum_secs(durations@),
{
    let mut total: i64 = 0;
    let mut i: usize = 0;
    while i < durations.len()
        invariant
            i <= durations@.len(),
            durations@.len() <= u32::MAX,
            total == sum_secs(durations@.take(i as int)),
            -2147483648 * (i as int) <= total <= 2147483647 * (i as int),
        decreases durations@.len() - i,
    {
        proof {
            assert(durations@.take(i as int + 1).drop_last() =~= durations@.take(i as int));
            assert(durations@.take(i as int + 1).last() == durations@[i as int]);
        }
        total = total + durations[i] as i64;
        i = i + 1;
    }
    assert(durations@.take(durations@.len() as int) =~= durations@);
    total
}

/// The content path under which a spot reel is scheduled.
pub fn spot_reel_content_path(reel_id: i32) -> (r: String)
    ensures
        r@ == "spot_reel://"@ + signed_decimal(reel_id as int),
{
    let mut out: Vec<char> = Vec::new();
    push_str(&mut out, "spot_reel://");
    push_signed_decimal(&mut out, reel_id as i64);
    string_from(out.as_slice())
}

/// Whether a schedule may be switched on: only when some node has it.
pub fn may_activate(requested_active: Option<bool>, assignment_count: i64) -> (b: bool)
    ensures
        b == !(requested_active == Some(true) && assignment_count == 0),
{
    !(requested_active == Some(true) && assignment_count == 0)
}

/// A script list stored as JSON (it begins with `[` once trimmed), rather
/// than as comma-separated ids.
pub open spec fn json_script_list(s: Seq<char>) -> bool {
    trim(s).len() > 0 && trim(s)[0] == '['
}

/// Whether a stored script list is JSON.
pub fn is_json_script_list(config: &str) -> (b: bool)
    ensures
        b == json_script_list(config@),
{
    let cs = chars_of(config);
    let t = trim_chars(cs.as_slice());
    t.len() > 0 && t[0] == '['
}

/// The ids of a comma-separated script list: each piece trimmed, those that
/// are not numbers skipped.
pub open spec fn csv_ids(pieces: Seq<Seq<char>>) -> Seq<i32>
    decreases pieces.len(),
{
    if pieces.len() == 0 {
        seq![]
    } else {
        let rest = csv_ids(pieces.drop_last());
        match parsed_i32(trim(pieces.last())) {
            Some(v) => rest.push(v as i32),
            None => rest,
        }
    }
}

/// Reads a comma-separated script list.
pub fn csv_script_ids(config: &str) -> (r: Vec<i32>)
    ensures
        r@ == csv_ids(split_on(config@, ',')),
{
    let cs = chars_of(config);
    let parts = split_chars(cs.as_slice(), ',');
    let ghost pv = parts@.map_values(|p: Vec<char>| p@);
    let mut out: Vec<i32> = Vec::new();
    let mut i: usize = 0;
    while i < parts.len()
        invariant
            i <= parts@.len(),
            pv == parts@.map_values(|p: Vec<char>| p@),
            out@ == csv_ids(pv.take(i as int)),
        decreases parts@.len() - i,
    {
        proof {
            assert(pv.take(i as int + 1).drop_last() =~= pv.take(i as int));
            assert(pv.take(i as int + 1).last() == parts@[i as int]@);
        }
        let t = trim_chars(parts[i].as_slice());
        match parse_i32(t.as_slice()) {
            Some(v) => out.push(v),
            None => {},
        }
        i = i + 1;
    }
    assert(pv.take(pv.len() as int) =~= pv);
    out
}

/// `r` is the last index below `n` where `pred` holds, or `None` if there is none.
pub open spec fn last_match(n: int, r: Option<usize>, pred: spec_fn(int) -> bool) -> bool {
    match r {
        Some(i) => i < n && pred(i as int) && forall|j: int| i < j < n ==> !#[trigger] pred(j),
        None => forall|j: int| 0 <= j < n ==> !#[trigger] pred(j),
    }
}

/// The id a loaded script is looked up by (0 when it has none).
pub open spec fn script_key(id: Option<i32>) -> i32 {
    match id {
        Some(i) => i,
        None => 0,
    }
}

fn last_loaded(loaded: &[Option<i32>], c: i32) -> (r: Option<usize>)
    ensures
        last_match(loaded@.len() as int, r, |j: int| script_key(loaded@[j]) == c),
{
    let mut i = loaded.len();
    while i > 0
        invariant
            i <= loaded@.len(),
            forall|j: int| i <= j < loaded@.len() ==> !(script_key(#[trigger] loaded@[j]) == c),
        decreases i,
    {
        let k = match loaded[i - 1] {
            Some(x) => x,
            None => 0,
        };
        if k == c {
            return Some(i - 1);
        }
        i = i - 1;
    }
    None
}

fn last_config(cfg: &[i32], c: i32) -> (r: Option<usize>)
    ensures
        last_match(cfg@.len() as int, r, |j: int| cfg@[j] == c),
{
    let mut i = cfg.len();
    while i > 0
        invariant
            i <= cfg@.len(),
            forall|j: int| i <= j < cfg@.len() ==> !(#[trigger] cfg@[j] == c),
        decreases i,
    {
        if cfg[i - 1] == c {
            return Some(i - 1);
        }
        i = i - 1;
    }
    None
}

/// A script to run and the configuration whose parameters it gets.
pub struct ScriptPlan {
    /// Index into the loaded scripts.
    pub script: usize,
    /// Index into the configurations.
    pub params: Option<usize>,
}

pub open spec fn plan_views(v: Seq<ScriptPlan>) -> Seq<(usize, Option<usize>)> {
    v.map_values(|p: ScriptPlan| (p.script, p.params))
}

/// One plan entry for each loaded script, in load order, with the parameters
/// of the last configuration that names it.
pub open spec fn transformer_plan_ok(cfg: Seq<i32>, loaded: Seq<Option<i32>>, plan: Seq<(usize, Option<usize>)>) -> bool {
    &&& plan.len() == loaded.len()
    &&& forall|j: int| 0 <= j < plan.len() ==> (#[trigger] plan[j]).0 == j
        && last_match(cfg.len() as int, plan[j].1, |k: int| cfg[k] == script_key(loaded[j]))
}

/// Plans a run of transformer scripts: every loaded script, in the order the
/// store returned them, each with the parameters configured for its id.
pub fn transformer_plan(config_ids: &[i32], loaded: &[Option<i32>]) -> (r: Vec<ScriptPlan>)
    ensures
        transformer_plan_ok(config_ids@, loaded@, plan_views(r@)),
{
    let mut out: Vec<ScriptPlan> = Vec::new();
    let mut j: usize = 0;
    while j < loaded.len()
        invariant
            j <= loaded@.len(),
            out@.len() == j,
            forall|q: int| 0 <= q < j ==> (#[trigger] out@[q]).script == q
                && last_match(config_ids@.len() as int, out@[q].params, |k: int| config_ids@[k] == script_key(loaded@[q])),
        decreases loaded@.len() - j,
    {
        let key = match loaded[j] {
            Some(x) => x,
            None => 0,
        };
        let params = last_config(config_ids, key);
        out.push(ScriptPlan { script: j, params });
        j = j + 1;
    }
    proof {
        let pv = plan_views(out@);
        assert forall|q: int| 0 <= q < pv.len() implies (#[trigger] pv[q]).0 == q
            && last_match(config_ids@.len() as int, pv[q].1, |k: int| config_ids@[k] == script_key(loaded@[q])) by {
            assert(pv[q] == (out@[q].script, out@[q].params));
        }
    }
    out
}

/// The context scripts run, in the order configured: for each configuration
/// the last loaded script with its id (none when it was not loaded), with the
/// parameters of the last configuration that names that id.
pub open spec fn context_plan(cfg: Seq<i32>, loaded: Seq<Option<i32>>, n: int) -> Seq<(usize, Option<usize>)>
    decreases n,
{
    if n <= 0 {
        seq![]
    } else {
        let rest = context_plan(cfg, loaded, n - 1);
        let c = cfg[n - 1];
        if exists|j: int| 0 <= j < loaded.len() && script_key(loaded[j]) == c {
            let s = choose|j: int| 0 <= j < loaded.len() && script_key(loaded[j]) == c
                && forall|x: int| j < x < loaded.len() ==> script_key(loaded[x]) != c;
            let p = choose|k: int| 0 <= k < cfg.len() && cfg[k] == c
                && forall|x: int| k < x < cfg.len() ==> cfg[x] != c;
            rest.push((s as usize, Some(p as usize)))
        } else {
            rest
        }
    }
}

/// Plans a run of context scripts (see `context_plan`).
pub fn context_script_plan(config_ids: &[i32], loaded: &[Option<i32>]) -> (r: Vec<ScriptPlan>)
    ensures
        plan_views(r@) == context_plan(config_ids@, loaded@, config_ids@.len() as int),
{
    let mut out: Vec<ScriptPlan> = Vec::new();
    let mut k: usize = 0;
    while k < config_ids.len()
        invariant
            k <= config_ids@.len(),
            plan_views(out@) == context_plan(config_ids@, loaded@, k as int),
        decreases config_ids@.len() - k,
    {
        let c = config_ids[k];
        match last_loaded(loaded, c) {
            Some(s) => {
                let p = last_config(config_ids, c);
                proof {
                    assert(script_key(loaded@[s as int]) == c);
                    let f = |x: int| config_ids@[x] == c;
                    assert(f(k as int));
                    let pi = p->0;
                    assert(p is Some);
                    let cs = choose|j: int| 0 <= j < loaded@.len() && script_key(loaded@[j]) == c
                        && forall|x: int| j < x < loaded@.len() ==> script_key(loaded@[x]) != c;
                    let g = |j: int| script_key(loaded@[j]) == c;
                    assert(0 <= s < loaded@.len() && script_key(loaded@[s as int]) == c
                        && forall|x: int| s < x < loaded@.len() ==> script_key(loaded@[x]) != c) by {
                        assert forall|x: int| s < x < loaded@.len() implies script_key(loaded@[x]) != c by {
                            assert(!g(x));
                        }
                    }
                    if cs != s {
                        if cs < s {
                        } else {
                            assert(!g(cs));
                        }
                    }
                    let cp = choose|q: int| 0 <= q < config_ids@.len() && config_ids@[q] == c
                        && forall|x: int| q < x < config_ids@.len() ==> config_ids@[x] != c;
                    assert(0 <= pi < config_ids@.len() && config_ids@[pi as int] == c
                        && forall|x: int| pi < x < config_ids@.len() ==> config_ids@[x] != c) by {
                        assert forall|x: int| pi < x < config_ids@.len() implies config_ids@[x] != c by {
                            assert(!f(x));
                        }
                    }
                    if cp != pi {
                        if cp < pi {
                        } else {
                            assert(!f(cp));
                        }
                    }
                }
                out.push(ScriptPlan { script: s, params: p });
                proof {
                    assert(plan_views(out@) =~= context_plan(config_ids@, loaded@, k as int + 1));
                }
            },
            None => {
                proof {
                    assert forall|j: int| 0 <= j < loaded@.len() implies script_key(loaded@[j]) != c by {
                        let g = |j: int| script_key(loaded@[j]) == c;
                        assert(!g(j));
                    }
                }
            },
        }
        k = k + 1;
    }
    out
}

/// The text of a run of scripts: each output that is not blank (when
/// `skip_blank`; else not empty) followed by a newline.
pub open spec fn collected_output(outputs: Seq<Seq<char>>, skip_blank: bool) -> Seq<char>
    decreases outputs.len(),
{
    if outputs.len() == 0 {
        seq![]
    } else {
        let rest = collected_output(outputs.drop_last(), skip_blank);
        let o = outputs.last();
        let keep = if skip_blank { trim(o).len() > 0 } else { o.len() > 0 };
        if keep { rest + o + seq!['\n'] } else { rest }
    }
}

/// Joins the outputs of context scripts (blank ones skipped) or transformer
/// scripts (empty ones skipped).
pub fn collect_output(outputs: &[String], skip_blank: bool) -> (r: String)
    ensures
        r@ == collected_output(crate::text::views(outputs@), skip_blank),
{
    let mut out: Vec<char> = Vec::new();
    let mut i: usize = 0;
    while i < outputs.len()
        invariant
            i <= outputs@.len(),
            out@ == collected_output(crate::text::views(outputs@.take(i as int)), skip_blank),
        decreases outputs@.len() - i,
    {
        proof {
            let t = crate::text::views(outputs@.take(i as int + 1));
            assert(t.drop_last() =~= crate::text::views(outputs@.take(i as int)));
            assert(t.last() == outputs@[i as int]@);
        }
        let cs = chars_of(outputs[i].as_str());
        let keep = if skip_blank {
            let t = trim_chars(cs.as_slice());
            t.len() > 0
        } else {
            cs.len() > 0
        };
        if keep {
            push_all(&mut out, cs.as_slice());
            out.push('\n');
        }
        i = i + 1;
    }
    assert(outputs@.take(outputs@.len() as int) =~= outputs@);
    string_from(out.as_slice())
}

/// The variable a test run reads the result from: `context` for context
/// scripts, `output` for transformers, none for others (their value is used).
pub fn test_output_variable(script_type: &str) -> (r: Option<String>)
    ensures
        crate::tts::opt_view(r) == (if script_type@ == "server_context"@ {
            Some("context"@)
        } else if script_type@ == "transformer"@ {
            Some("output"@)
        } else {
            None
        }),
{
    if str_eq(script_type, "server_context") {
        Some(owned("context"))
    } else if str_eq(script_type, "transformer") {
        Some(owned("output"))
    } else {
        None
    }
}

/// `r` is `ids` sorted ascending with repeats removed.
pub open spec fn sorted_unique_of(ids: Seq<i32>, r: Seq<i32>) -> bool {
    &&& forall|a: int, b: int| 0 <= a < b < r.len() ==> r[a] < r[b]
    &&& forall|x: i32| #[trigger] r.contains(x) <==> ids.contains(x)
}

/// The script ids a node is sent: sorted, each once.
pub fn sorted_unique(ids: &[i32]) -> (r: Vec<i32>)
    ensures
        sorted_unique_of(ids@, r@),
{
    let mut out: Vec<i32> = Vec::new();
    let mut i: usize = 0;
    while i < ids.len()
        invariant
            i <= ids@.len(),
            forall|a: int, b: int| 0 <= a < b < out@.len() ==> out@[a] < out@[b],
            forall|x: i32| #[trigger] out@.contains(x) <==> ids@.take(i as int).contains(x),
        decreases ids@.len() - i,
    {
        let x = ids[i];
        let ghost before = out@;
        // Find where x goes.
        let mut j: usize = 0;
        while j < out.len() && out[j] < x
            invariant
                j <= out@.len(),
                out@ == before,
                forall|a: int| 0 <= a < j ==> out@[a] < x,
            decreases out@.len() - j,
        {
            j = j + 1;
        }
        if j < out.len() && out[j] == x {
            proof {
                assert(before.contains(x));
            }
        } else {
            out.insert(j, x);
            proof {
                assert(out@ == before.insert(j as int, x));
                assert forall|a: int, b: int| 0 <= a < b < out@.len() implies out@[a] < out@[b] by {
                    if b < j {
                        assert(out@[a] == before[a] && out@[b] == before[b]);
                    } else if b == j {
                        assert(out@[a] == before[a]);
                    } else if a < j {
                        assert(out@[a] == before[a] && out@[b] == before[b - 1]);
                        assert(before[j as int] >= x);
                        if j < b - 1 {
                            assert(before[j as int] < before[b - 1]);
                        }
                    } else if a == j {
                        assert(out@[b] == before[b - 1]);
                        assert(before[j as int] > x);
                        if j < b - 1 {
                            assert(before[j as int] < before[b - 1]);
                        }
                    } else {
                        assert(out@[a] == before[a - 1] && out@[b] == before[b - 1]);
                    }
                }
                assert forall|y: i32| #[trigger] out@.contains(y) <==> (before.contains(y) || y == x) by {
                    if out@.contains(y) {
                        let q = choose|q: int| 0 <= q < out@.len() && out@[q] == y;
                        if q < j {
                            assert(before[q] == y);
                        } else if q > j {
                            assert(before[q - 1] == y);
                        }
                    }
                    if before.contains(y) {
                        let q = choose|q: int| 0 <= q < before.len() && before[q] == y;
                        if q < j {
                            assert(out@[q] == y);
                        } else {
                            assert(out@[q + 1] == y);
                        }
                    }
                    if y == x {
                        assert(out@[j as int] == x);
                    }
                }
            }
        }
        proof {
            let t0 = ids@.take(i as int);
            let t1 = ids@.take(i as int + 1);
            assert(t1 == t0.push(x));
            assert forall|y: i32| #[trigger] t1.contains(y) <==> (t0.contains(y) || y == x) by {
                if t1.contains(y) {
                    let q = choose|q: int| 0 <= q < t1.len() && t1[q] == y;
                    if q < t0.len() {
                        assert(t0[q] == y);
                    }
                }
                if t0.contains(y) {
                    let q = choose|q: int| 0 <= q < t0.len() && t0[q] == y;
                    assert(t1[q] == y);
                }
                if y == x {
                    assert(t1[i as int] == x);
                }
            }
        }
        i = i + 1;
    }
    assert(ids@.take(ids@.len() as int) =~= ids@);
    out
}

} // verus!
