//! One hook: whether it runs, and what its exit code and output decide.

use super::types::{
    blockable, rewritable, DecisionView, HookConfig, HookDecision, HookEvent, HookOutcome, HookPayload,
};
use crate::bytes::{byte_len, byte_length, fit, fit_chars, lemma_fit};
use crate::json::{json_parse, member, opt_json, parse_json, text_member, Json, JsonView};
use crate::split::{is_blank, trim, trim_str};
use crate::text::{chars_of, str_eq, string_of};
use vstd::prelude::*;
use vstd::slice::slice_subrange;
use vstd::utf8::encode_utf8;

verus! {

// ---------------------------------------------------------------------------------------------
// Whether a hook runs
// ---------------------------------------------------------------------------------------------

/// The pattern `p` fits `t`, byte by byte: `*` stands for any run of bytes, `?` for any one byte,
/// any other byte for itself.
pub open spec fn glob_fits(p: Seq<u8>, t: Seq<u8>) -> bool
    decreases p.len(),
{
    if p.len() == 0 {
        t.len() == 0
    } else if p[0] == 42 {
        exists|k: int| 0 <= k <= t.len() && glob_fits(p.skip(1), #[trigger] t.skip(k))
    } else {
        t.len() > 0 && (p[0] == 63 || p[0] == t[0]) && glob_fits(p.skip(1), t.skip(1))
    }
}

/// A `*` either stands for nothing or takes one byte more.
proof fn lemma_star(p: Seq<u8>, t: Seq<u8>)
    requires
        p.len() > 0,
        p[0] == 42,
    ensures
        glob_fits(p, t) == (glob_fits(p.skip(1), t) || (t.len() > 0 && glob_fits(p, t.skip(1)))),
{
    reveal_with_fuel(glob_fits, 2);
    assert(t.skip(0) =~= t);
    if glob_fits(p.skip(1), t) {
        assert(glob_fits(p.skip(1), t.skip(0)));
    }
    if t.len() > 0 && glob_fits(p, t.skip(1)) {
        let k = choose|k: int|
            0 <= k <= t.skip(1).len() && glob_fits(p.skip(1), #[trigger] t.skip(1).skip(k));
        assert(t.skip(1).skip(k) =~= t.skip(k + 1));
        assert(glob_fits(p.skip(1), t.skip(k + 1)));
    }
    if glob_fits(p, t) {
        let k = choose|k: int| 0 <= k <= t.len() && glob_fits(p.skip(1), #[trigger] t.skip(k));
        if k > 0 {
            assert(t.skip(1).skip(k - 1) =~= t.skip(k));
            assert(glob_fits(p.skip(1), t.skip(1).skip(k - 1)));
        }
    }
}

fn glob_bytes(p: &[u8], t: &[u8]) -> (r: bool)
    ensures
        r == glob_fits(p@, t@),
    decreases p@.len(), t@.len(),
{
    if p.len() == 0 {
        return t.len() == 0;
    }
    let rest = slice_subrange(p, 1, p.len());
    assert(rest@ =~= p@.skip(1));
    if p[0] == 42 {
        proof {
            lemma_star(p@, t@);
        }
        if glob_bytes(rest, t) {
            return true;
        }
        if t.len() == 0 {
            return false;
        }
        let next = slice_subrange(t, 1, t.len());
        assert(next@ =~= t@.skip(1));
        glob_bytes(p, next)
    } else {
        if t.len() == 0 {
            return false;
        }
        let next = slice_subrange(t, 1, t.len());
        assert(next@ =~= t@.skip(1));
        (p[0] == 63 || p[0] == t[0]) && glob_bytes(rest, next)
    }
}

/// Whether the pattern fits the text: `*` stands for any run of bytes, `?` for any one byte.
pub fn glob_match(pat: &str, s: &str) -> (r: bool)
    ensures
        r == glob_fits(encode_utf8(pat@), encode_utf8(s@)),
{
    glob_bytes(pat.as_bytes(), s.as_bytes())
}

/// The hook runs for the data: a hook with a tool's name runs for that tool, one with a pattern for
/// the tools that fit it, and any other for everything.
pub open spec fn filter_fits(cfg: HookConfig, data: JsonView) -> bool {
    match cfg.matcher {
        None => true,
        Some(m) => match m.tool {
            Some(t) => text_member(data, "tool"@) == Some(t@),
            None => match m.tool_glob {
                Some(g) => match text_member(data, "tool"@) {
                    Some(tool) => glob_fits(encode_utf8(g@), encode_utf8(tool)),
                    None => false,
                },
                None => true,
            },
        },
    }
}

/// Whether the hook runs for the payload's data.
pub fn matches_filter(cfg: &HookConfig, payload: &HookPayload) -> (r: bool)
    ensures
        r == filter_fits(*cfg, payload@.data),
{
    match &cfg.matcher {
        None => true,
        Some(m) => match &m.tool {
            Some(t) => match payload.data.get_str("tool") {
                Some(tool) => str_eq(tool.as_str(), t.as_str()),
                None => false,
            },
            None => match &m.tool_glob {
                Some(g) => match payload.data.get_str("tool") {
                    Some(tool) => glob_match(g.as_str(), tool.as_str()),
                    None => false,
                },
                None => true,
            },
        },
    }
}

/// The hook's command is run for the payload.
pub open spec fn hook_runs(cfg: HookConfig, data: JsonView) -> bool {
    cfg.enabled && filter_fits(cfg, data)
}

/// Whether the hook's command is run for the payload.
pub fn should_run(cfg: &HookConfig, payload: &HookPayload) -> (r: bool)
    ensures
        r == hook_runs(*cfg, payload@.data),
{
    cfg.enabled && matches_filter(cfg, payload)
}

// ---------------------------------------------------------------------------------------------
// What a run decides
// ---------------------------------------------------------------------------------------------

/// What the JSON that a hook printed decides: an object with a `decision` says it outright, any
/// other object is the new data, and nothing else counts.
pub open spec fn printed_decision(parsed: Option<JsonView>) -> DecisionView {
    match parsed {
        Some(JsonView::Obj(e)) => {
            let v = JsonView::Obj(e);
            match text_member(v, "decision"@) {
                Some(d) => if d == "rewrite"@ {
                    match member(v, "data"@) {
                        Some(data) => DecisionView::Rewrite(data),
                        None => DecisionView::Continue,
                    }
                } else if d == "block"@ {
                    DecisionView::Block(
                        match text_member(v, "reason"@) {
                            Some(r) => r,
                            None => "blocked by hook"@,
                        },
                    )
                } else {
                    DecisionView::Continue
                },
                None => DecisionView::Rewrite(v),
            }
        },
        _ => DecisionView::Continue,
    }
}

/// What the JSON that a hook printed decides.
pub fn decide_printed(parsed: Option<Json>) -> (r: HookDecision)
    ensures
        r@ == printed_decision(opt_json(parsed)),
{
    broadcast use crate::json::json_view_arr, crate::json::json_view_obj;

    let v = match parsed {
        Some(v) => v,
        None => {
            return HookDecision::Continue;
        },
    };
    let is_obj = match &v {
        Json::Obj(_) => true,
        _ => false,
    };
    assert(is_obj == (v@ is Obj));
    if !is_obj {
        return HookDecision::Continue;
    }
    let word = v.get_str("decision");
    match word {
        Some(d) => {
            if str_eq(d.as_str(), "continue") {
                proof {
                    reveal_strlit("continue");
                    reveal_strlit("rewrite");
                    reveal_strlit("block");
                    assert("continue"@[0] != "rewrite"@[0]);
                    assert("continue"@[0] != "block"@[0]);
                }
                HookDecision::Continue
            } else if str_eq(d.as_str(), "rewrite") {
                match v.get("data") {
                    Some(data) => HookDecision::Rewrite(data.dup()),
                    None => HookDecision::Continue,
                }
            } else if str_eq(d.as_str(), "block") {
                let reason = match v.get_str("reason") {
                    Some(r) => r,
                    None => "blocked by hook".to_owned(),
                };
                HookDecision::Block { reason }
            } else {
                HookDecision::Continue
            }
        },
        None => HookDecision::Rewrite(v),
    }
}

/// What the end of a hook's run decides. Exit code 0 lets things go on, and where the event can be
/// rewritten the output may say more; 2 blocks where the event can be blocked, with the output as the
/// reason; a hook that fails otherwise decides nothing.
pub open spec fn run_decision(event: HookEvent, exit_code: i32, stdout: Seq<char>) -> DecisionView {
    if exit_code == 0 {
        if !rewritable(event) || is_blank(stdout) {
            DecisionView::Continue
        } else {
            printed_decision(json_parse(trim(stdout)))
        }
    } else if exit_code == 2 && blockable(event) {
        DecisionView::Block(
            if is_blank(stdout) {
                "blocked by hook (exit 2)"@
            } else {
                trim(stdout)
            },
        )
    } else {
        DecisionView::Continue
    }
}

/// What the end of a hook's run decides.
pub fn decide(event: HookEvent, exit_code: i32, stdout: &str) -> (r: HookDecision)
    ensures
        r@ == run_decision(event, exit_code, stdout@),
{
    let out = trim_str(stdout);
    if exit_code == 0 {
        if !event.is_rewritable() || out.as_str().is_empty() {
            return HookDecision::Continue;
        }
        decide_printed(parse_json(out.as_str()))
    } else if exit_code == 2 && event.is_blockable() {
        if out.as_str().is_empty() {
            HookDecision::Block { reason: "blocked by hook (exit 2)".to_owned() }
        } else {
            HookDecision::Block { reason: out }
        }
    } else {
        HookDecision::Continue
    }
}

/// `s` cut to at most `max` bytes between characters, with an ellipsis where something is gone.
pub open spec fn log_text(s: Seq<char>, max: nat) -> Seq<char> {
    if byte_len(s) <= max {
        s
    } else {
        s.take(fit(s, max) as int) + "…"@
    }
}

/// Cuts a text for the log.
pub fn truncate_for_log(s: &str, max: usize) -> (r: String)
    ensures
        r@ == log_text(s@, max as nat),
{
    if byte_length(s) <= max {
        return s.to_owned();
    }
    let a = chars_of(s);
    let k = fit_chars(a.as_slice(), max);
    let mut out = string_of(slice_subrange(a.as_slice(), 0, k));
    assert(out@ =~= s@.take(k as int));
    out.append("…");
    out
}

/// How a run that came to its end ended.
pub fn finished_outcome(event: HookEvent, exit_code: i32, stdout: &str, stderr: &str) -> (r:
    HookOutcome)
    ensures
        r.decision@ == run_decision(event, exit_code, stdout@),
        r.stdout_preview@ == log_text(stdout@, 500),
        r.stderr_preview@ == log_text(stderr@, 500),
        r.exit_code == exit_code,
{
    HookOutcome {
        decision: decide(event, exit_code, stdout),
        stdout_preview: truncate_for_log(stdout, 500),
        stderr_preview: truncate_for_log(stderr, 500),
        exit_code,
    }
}

/// How a hook that was not run, or whose run broke off, ended: it decides nothing.
pub fn skipped_outcome(exit_code: i32) -> (r: HookOutcome)
    ensures
        r.decision@ == DecisionView::Continue,
        r.stdout_preview@ == Seq::<char>::empty(),
        r.stderr_preview@ == Seq::<char>::empty(),
        r.exit_code == exit_code,
{
    HookOutcome {
        decision: HookDecision::Continue,
        stdout_preview: String::new(),
        stderr_preview: String::new(),
        exit_code,
    }
}

/// Only the hooks of a rewritable event can rewrite, and only those of a blockable event can block.
pub proof fn law_decisions_respect_event(event: HookEvent, exit_code: i32, stdout: Seq<char>)
    ensures
        run_decision(event, exit_code, stdout) is Rewrite ==> rewritable(event),
        run_decision(event, exit_code, stdout) is Block ==> blockable(event),
        exit_code != 0 && exit_code != 2 ==> run_decision(event, exit_code, stdout)
            == DecisionView::Continue,
{
}

/// A pattern fits in two parts where its parts fit two parts of the text.
pub proof fn law_pattern_in_parts(p: Seq<u8>, q: Seq<u8>, t: Seq<u8>)
    ensures
        glob_fits(p + q, t) <==> exists|k: int|
            0 <= k <= t.len() && glob_fits(p, #[trigger] t.take(k)) && glob_fits(q, t.skip(k)),
    decreases p.len(),
{
    let pq = p + q;
    if p.len() == 0 {
        assert(pq =~= q);
        assert(t.take(0) =~= Seq::<u8>::empty());
        assert(t.skip(0) =~= t);
        assert(glob_fits(p, t.take(0)));
        if exists|k: int| 0 <= k <= t.len() && glob_fits(p, #[trigger] t.take(k)) && glob_fits(q, t.skip(k)) {
            let k = choose|k: int|
                0 <= k <= t.len() && glob_fits(p, #[trigger] t.take(k)) && glob_fits(q, t.skip(k));
            assert(t.take(k).len() == 0);
            assert(k == 0);
        }
    } else {
        let r = p.skip(1);
        assert(pq.skip(1) =~= r + q);
        assert(pq[0] == p[0]);
        if p[0] == 42 {
            if glob_fits(pq, t) {
                let m = choose|m: int| 0 <= m <= t.len() && glob_fits(pq.skip(1), #[trigger] t.skip(m));
                law_pattern_in_parts(r, q, t.skip(m));
                let k = choose|k: int|
                    0 <= k <= t.skip(m).len() && glob_fits(r, #[trigger] t.skip(m).take(k)) && glob_fits(
                        q,
                        t.skip(m).skip(k),
                    );
                assert(t.take(m + k).skip(m) =~= t.skip(m).take(k));
                assert(t.skip(m + k) =~= t.skip(m).skip(k));
                assert(glob_fits(p, t.take(m + k)));
            }
            if exists|k: int|
                0 <= k <= t.len() && glob_fits(p, #[trigger] t.take(k)) && glob_fits(q, t.skip(k)) {
                let k = choose|k: int|
                    0 <= k <= t.len() && glob_fits(p, #[trigger] t.take(k)) && glob_fits(q, t.skip(k));
                let m = choose|m: int|
                    0 <= m <= t.take(k).len() && glob_fits(r, #[trigger] t.take(k).skip(m));
                let u = t.skip(m);
                assert(u.take(k - m) =~= t.take(k).skip(m));
                assert(u.skip(k - m) =~= t.skip(k));
                law_pattern_in_parts(r, q, u);
                assert(glob_fits(pq.skip(1), t.skip(m)));
            }
        } else {
            if glob_fits(pq, t) {
                let u = t.skip(1);
                law_pattern_in_parts(r, q, u);
                let k = choose|k: int|
                    0 <= k <= u.len() && glob_fits(r, #[trigger] u.take(k)) && glob_fits(q, u.skip(k));
                assert(t.take(k + 1).skip(1) =~= u.take(k));
                assert(t.skip(k + 1) =~= u.skip(k));
                assert(t.take(k + 1)[0] == t[0]);
                assert(glob_fits(p, t.take(k + 1)));
            }
            if exists|k: int|
                0 <= k <= t.len() && glob_fits(p, #[trigger] t.take(k)) && glob_fits(q, t.skip(k)) {
                let k = choose|k: int|
                    0 <= k <= t.len() && glob_fits(p, #[trigger] t.take(k)) && glob_fits(q, t.skip(k));
                assert(k > 0);
                let u = t.skip(1);
                assert(u.take(k - 1) =~= t.take(k).skip(1));
                assert(u.skip(k - 1) =~= t.skip(k));
                assert(t.take(k)[0] == t[0]);
                law_pattern_in_parts(r, q, u);
            }
        }
    }
}

/// A star fits anything, a question mark any one byte, any other byte itself, and nothing fits nothing alone.
pub proof fn law_pattern_characters(b: u8, t: Seq<u8>)
    ensures
        glob_fits(Seq::empty(), t) <==> t.len() == 0,
        glob_fits(seq![42u8], t),
        glob_fits(seq![63u8], t) <==> t.len() == 1,
        b != 42 && b != 63 ==> (glob_fits(seq![b], t) <==> t == seq![b]),
{
    assert(seq![42u8].skip(1) =~= Seq::<u8>::empty());
    assert(t.skip(t.len() as int).len() == 0);
    assert(glob_fits(Seq::<u8>::empty(), t.skip(t.len() as int)));
    assert(seq![42u8].skip(1).len() == 0);
    assert(glob_fits(seq![42u8].skip(1), t.skip(t.len() as int)));
    assert(seq![63u8].skip(1) =~= Seq::<u8>::empty());
    assert(seq![b].skip(1) =~= Seq::<u8>::empty());
    if t.len() > 0 {
        assert(glob_fits(seq![63u8].skip(1), t.skip(1)) <==> t.skip(1).len() == 0);
        assert(glob_fits(seq![b].skip(1), t.skip(1)) <==> t.skip(1).len() == 0);
    }
    if t.len() == 1 {
        assert(t.skip(1).len() == 0);
        if t[0] == b {
            assert(t =~= seq![b]);
        }
    }
}

/// A hook runs where it is switched on and fits: without a filter always, with a tool for that tool alone, and
/// else with a pattern for the tools that it fits.
pub proof fn law_when_hooks_run(cfg: HookConfig, data: JsonView)
    ensures
        !cfg.enabled ==> !hook_runs(cfg, data),
        cfg.enabled && cfg.matcher is None ==> hook_runs(cfg, data),
        cfg.enabled ==> (cfg.matcher matches Some(m) ==> (m.tool matches Some(t) ==> (hook_runs(cfg, data)
            <==> text_member(data, "tool"@) == Some(t@)))),
        cfg.enabled ==> (cfg.matcher matches Some(m) ==> (m.tool is None && m.tool_glob is None ==> hook_runs(
            cfg,
            data,
        ))),
        cfg.enabled ==> (cfg.matcher matches Some(m) ==> (m.tool is None ==> (m.tool_glob matches Some(g) ==> (
        hook_runs(cfg, data) <==> (text_member(data, "tool"@) matches Some(tool) && glob_fits(
            encode_utf8(g@),
            encode_utf8(tool),
        )))))),
{
}

/// What a hook decides. It lets things go on unless it succeeds with something to say at an event that can be
/// rewritten, or asks to block one that can be blocked: then what it printed is the reason.
pub proof fn law_what_a_hook_decides(event: HookEvent, exit_code: i32, stdout: Seq<char>)
    ensures
        exit_code == 2 && blockable(event) && !is_blank(stdout) ==> run_decision(event, exit_code, stdout)
            == DecisionView::Block(trim(stdout)),
        exit_code == 2 && blockable(event) && is_blank(stdout) ==> run_decision(event, exit_code, stdout)
            == DecisionView::Block("blocked by hook (exit 2)"@),
        exit_code == 2 && !blockable(event) ==> run_decision(event, exit_code, stdout)
            == DecisionView::Continue,
        exit_code == 0 && rewritable(event) && !is_blank(stdout) ==> run_decision(event, exit_code, stdout)
            == printed_decision(json_parse(trim(stdout))),
        exit_code == 0 && (!rewritable(event) || is_blank(stdout)) ==> run_decision(event, exit_code, stdout)
            == DecisionView::Continue,
        exit_code != 0 && exit_code != 2 ==> run_decision(event, exit_code, stdout) == DecisionView::Continue,
{
}

/// What a hook prints: an object without a decision is the new data; one with a decision says whether to rewrite
/// with its data, to block for its reason, or to go on; anything that is no object is passed over.
pub proof fn law_what_a_hook_prints(v: JsonView)
    ensures
        printed_decision(None) == DecisionView::Continue,
        !(v is Obj) ==> printed_decision(Some(v)) == DecisionView::Continue,
        v is Obj && text_member(v, "decision"@) is None ==> printed_decision(Some(v)) == DecisionView::Rewrite(v),
        v is Obj && text_member(v, "decision"@) == Some("rewrite"@) ==> printed_decision(Some(v)) == (
        match member(v, "data"@) {
            Some(data) => DecisionView::Rewrite(data),
            None => DecisionView::Continue,
        }),
        v is Obj && text_member(v, "decision"@) == Some("block"@) && "block"@ != "rewrite"@ ==> printed_decision(
            Some(v),
        ) == DecisionView::Block(
            match text_member(v, "reason"@) {
                Some(r) => r,
                None => "blocked by hook"@,
            },
        ),
        v is Obj ==> (text_member(v, "decision"@) matches Some(d) ==> (d != "rewrite"@ && d != "block"@
            ==> printed_decision(Some(v)) == DecisionView::Continue)),
        "block"@ != "rewrite"@,
{
    reveal_strlit("block");
    reveal_strlit("rewrite");
    assert("block"@.len() != "rewrite"@.len());
}

/// What is logged of a text are the characters that fit, with a mark where it is cut.
pub proof fn law_logged_text(s: Seq<char>, max: nat)
    ensures
        byte_len(s) <= max ==> log_text(s, max) == s,
        byte_len(s) > max ==> exists|k: int|
            0 <= k < s.len() && #[trigger] byte_len(s.take(k)) <= max && byte_len(s.take(k + 1)) > max
                && log_text(s, max) == s.take(k) + "…"@,
{
    if byte_len(s) > max {
        lemma_fit(s, max);
        let k = fit(s, max) as int;
        assert(s.take(s.len() as int) =~= s);
        assert(byte_len(s.take(k)) <= max);
    }
}

} // verus!
