//! All hooks, and how those of one event follow each other.
//!
//! The hooks of an event run one after the other, in the order of the configuration. A rewrite is
//! what the next hook sees; a block ends the row.

use super::types::{DecisionView, HookConfig, HookDecision, HookEvent, HookPayload};
use crate::json::{Json, JsonView};
use vstd::prelude::*;

verus! {

/// The hooks of the configuration, in order.
#[derive(Debug)]
pub struct HookRegistry {
    pub hooks: Vec<HookConfig>,
}

/// The hooks of the event, in order.
pub open spec fn hooks_of(hooks: Seq<HookConfig>, event: HookEvent) -> Seq<HookConfig>
    decreases hooks.len(),
{
    if hooks.len() == 0 {
        Seq::empty()
    } else if hooks.last().event == event {
        hooks_of(hooks.drop_last(), event).push(hooks.last())
    } else {
        hooks_of(hooks.drop_last(), event)
    }
}

/// The position of the first hook of the event at or after `i`.
pub open spec fn hook_from(hooks: Seq<HookConfig>, event: HookEvent, i: int) -> int
    decreases hooks.len() - i,
{
    if i < 0 || i >= hooks.len() {
        hooks.len() as int
    } else if hooks[i].event == event {
        i
    } else {
        hook_from(hooks, event, i + 1)
    }
}

/// Passing over hooks of other events leaves the hooks of the event that come before as they are.
proof fn lemma_hook_from(hooks: Seq<HookConfig>, event: HookEvent, i: int)
    requires
        0 <= i <= hooks.len(),
    ensures
        i <= hook_from(hooks, event, i) <= hooks.len(),
        hook_from(hooks, event, i) < hooks.len() ==> hooks[hook_from(hooks, event, i)].event
            == event,
        hooks_of(hooks.take(hook_from(hooks, event, i)), event) == hooks_of(hooks.take(i), event),
    decreases hooks.len() - i,
{
    if i < hooks.len() && hooks[i].event != event {
        lemma_hook_from(hooks, event, i + 1);
        assert(hooks.take(i + 1).drop_last() =~= hooks.take(i));
    }
}

/// There is a hook of the event exactly where one is found.
proof fn lemma_hooks_of_some(hooks: Seq<HookConfig>, event: HookEvent)
    ensures
        hooks_of(hooks, event).len() > 0 <==> hook_from(hooks, event, 0) < hooks.len(),
{
    lemma_hook_from(hooks, event, 0);
    let k = hook_from(hooks, event, 0);
    assert(hooks.take(0) =~= Seq::<HookConfig>::empty());
    if k < hooks.len() {
        assert(hooks.take(k + 1).drop_last() =~= hooks.take(k));
        lemma_hooks_of_grow(hooks, event, k + 1);
    } else {
        assert(hooks.take(k) =~= hooks);
    }
}

proof fn lemma_hooks_of_grow(hooks: Seq<HookConfig>, event: HookEvent, i: int)
    requires
        0 <= i <= hooks.len(),
    ensures
        hooks_of(hooks.take(i), event).len() <= hooks_of(hooks, event).len(),
    decreases hooks.len() - i,
{
    if i == hooks.len() {
        assert(hooks.take(i) =~= hooks);
    } else {
        lemma_hooks_of_grow(hooks, event, i + 1);
        assert(hooks.take(i + 1).drop_last() =~= hooks.take(i));
    }
}

impl HookRegistry {
    /// The hooks of a configuration.
    pub fn from_configs(hooks: Vec<HookConfig>) -> (r: HookRegistry)
        ensures
            r.hooks@ == hooks@,
    {
        HookRegistry { hooks }
    }

    /// Whether the event has a hook.
    pub fn has(&self, event: HookEvent) -> (r: bool)
        ensures
            r == (hooks_of(self.hooks@, event).len() > 0),
    {
        proof {
            lemma_hooks_of_some(self.hooks@, event);
        }
        self.find_hook(event, 0) < self.hooks.len()
    }

    fn find_hook(&self, event: HookEvent, from: usize) -> (r: usize)
        requires
            from <= self.hooks@.len(),
        ensures
            r == hook_from(self.hooks@, event, from as int),
    {
        let mut i: usize = from;
        while i < self.hooks.len() && self.hooks[i].event != event
            invariant
                from <= i <= self.hooks@.len(),
                hook_from(self.hooks@, event, from as int) == hook_from(
                    self.hooks@,
                    event,
                    i as int,
                ),
            decreases self.hooks@.len() - i,
        {
            i += 1;
        }
        i
    }
}

/// A row of hooks under way.
#[derive(Debug)]
pub struct HookChain {
    /// What the next hook is told.
    pub payload: HookPayload,
    /// Whether a hook has rewritten the data.
    pub rewritten: bool,
    /// Why a hook has blocked.
    pub blocked: Option<String>,
    /// How much of the registry has been gone through.
    pub pos: usize,
}

/// What a row of hooks has come to.
pub struct ChainView {
    pub event: HookEvent,
    pub data: JsonView,
    pub rewritten: bool,
    pub blocked: Option<Seq<char>>,
}

impl View for HookChain {
    type V = ChainView;

    open spec fn view(&self) -> ChainView {
        ChainView {
            event: self.payload.event,
            data: self.payload.data@,
            rewritten: self.rewritten,
            blocked: crate::text::opt_text(self.blocked),
        }
    }
}

/// The row after one hook's decision.
pub open spec fn chain_step(c: ChainView, d: DecisionView) -> ChainView {
    match d {
        DecisionView::Continue => c,
        DecisionView::Rewrite(data) => ChainView { data, rewritten: true, ..c },
        DecisionView::Block(reason) => ChainView { blocked: Some(reason), ..c },
    }
}

/// The row after several decisions; none counts after a block.
pub open spec fn chain_steps(c: ChainView, ds: Seq<DecisionView>) -> ChainView
    decreases ds.len(),
{
    if ds.len() == 0 {
        c
    } else {
        let before = chain_steps(c, ds.drop_last());
        if before.blocked is Some {
            before
        } else {
            chain_step(before, ds.last())
        }
    }
}

/// What the whole row decides.
pub open spec fn chain_decision(c: ChainView) -> DecisionView {
    match c.blocked {
        Some(reason) => DecisionView::Block(reason),
        None => if c.rewritten {
            DecisionView::Rewrite(c.data)
        } else {
            DecisionView::Continue
        },
    }
}

/// The row that begins with the data.
pub open spec fn chain_start(event: HookEvent, data: JsonView) -> ChainView {
    ChainView { event, data, rewritten: false, blocked: None }
}

impl HookChain {
    /// A row of hooks that begins.
    pub fn start(event: HookEvent, data: Json) -> (r: HookChain)
        ensures
            r@ == chain_start(event, data@),
            r.pos == 0,
    {
        HookChain {
            payload: HookPayload::new(event, data),
            rewritten: false,
            blocked: None,
            pos: 0,
        }
    }

    /// The next hook of the row: the first one of the event that has not been gone through; none
    /// after a block.
    pub fn next_hook<'a>(&mut self, reg: &'a HookRegistry) -> (r: Option<&'a HookConfig>)
        requires
            old(self).pos <= reg.hooks@.len(),
        ensures
            final(self)@ == old(self)@,
            old(self)@.blocked is Some ==> r is None && final(self).pos == old(self).pos,
            old(self)@.blocked is None ==> {
                let done = hooks_of(reg.hooks@.take(old(self).pos as int), old(self)@.event);
                let now = hooks_of(reg.hooks@.take(final(self).pos as int), old(self)@.event);
                match r {
                    Some(cfg) => now == done.push(*cfg),
                    None => now == done && final(self).pos == reg.hooks@.len(),
                }
            },
            old(self).pos <= final(self).pos <= reg.hooks@.len(),
    {
        if self.blocked.is_some() {
            return None;
        }
        let event = self.payload.event;
        proof {
            lemma_hook_from(reg.hooks@, event, self.pos as int);
        }
        let k = reg.find_hook(event, self.pos);
        if k == reg.hooks.len() {
            self.pos = k;
            return None;
        }
        assert(reg.hooks@.take(k + 1).drop_last() =~= reg.hooks@.take(k as int));
        assert(reg.hooks@.take(k + 1).last() == reg.hooks@[k as int]);
        self.pos = k + 1;
        Some(&reg.hooks[k])
    }

    /// Takes in what the last hook decided.
    pub fn take_decision(&mut self, d: HookDecision)
        ensures
            final(self)@ == chain_step(old(self)@, d@),
            final(self).pos == old(self).pos,
    {
        match d {
            HookDecision::Continue => {},
            HookDecision::Rewrite(data) => {
                let event = self.payload.event;
                self.payload = HookPayload::new(event, data);
                self.rewritten = true;
            },
            HookDecision::Block { reason } => {
                self.blocked = Some(reason);
            },
        }
    }

    /// What the whole row decides.
    pub fn finish(self) -> (r: HookDecision)
        ensures
            r@ == chain_decision(self@),
    {
        match self.blocked {
            Some(reason) => HookDecision::Block { reason },
            None => if self.rewritten {
                HookDecision::Rewrite(self.payload.data)
            } else {
                HookDecision::Continue
            },
        }
    }
}

/// A row of hooks that decide nothing decides nothing.
pub proof fn law_all_continue(event: HookEvent, data: JsonView, ds: Seq<DecisionView>)
    requires
        forall|i: int| 0 <= i < ds.len() ==> #[trigger] ds[i] == DecisionView::Continue,
    ensures
        chain_steps(chain_start(event, data), ds) == chain_start(event, data),
        chain_decision(chain_steps(chain_start(event, data), ds)) == DecisionView::Continue,
    decreases ds.len(),
{
    if ds.len() > 0 {
        law_all_continue(event, data, ds.drop_last());
        assert(ds.last() == ds[ds.len() - 1]);
    }
}

/// A block ends the row: whatever would follow it changes nothing.
pub proof fn law_block_ends_row(c: ChainView, before: Seq<DecisionView>, after: Seq<DecisionView>)
    requires
        chain_steps(c, before).blocked is Some,
    ensures
        chain_steps(c, before + after) == chain_steps(c, before),
        chain_decision(chain_steps(c, before + after)) is Block,
    decreases after.len(),
{
    if after.len() == 0 {
        assert(before + after =~= before);
    } else {
        assert((before + after).drop_last() =~= before + after.drop_last());
        law_block_ends_row(c, before, after.drop_last());
    }
}

/// The last rewrite of a row that is not blocked is what it comes to.
pub proof fn law_last_rewrite_holds(c: ChainView, before: Seq<DecisionView>, data: JsonView)
    requires
        chain_steps(c, before).blocked is None,
    ensures
        chain_decision(chain_steps(c, before.push(DecisionView::Rewrite(data))))
            == DecisionView::Rewrite(data),
{
    assert(before.push(DecisionView::Rewrite(data)).drop_last() =~= before);
}

/// The hooks of an event are those that name it, all of them, in the order of the configuration.
pub proof fn law_hooks_of_event(hooks: Seq<HookConfig>, h: HookConfig, event: HookEvent)
    ensures
        hooks_of(hooks.push(h), event) == (if h.event == event {
            hooks_of(hooks, event).push(h)
        } else {
            hooks_of(hooks, event)
        }),
        hooks_of(Seq::empty(), event).len() == 0,
{
    assert(hooks.push(h).drop_last() =~= hooks);
}

/// The next hook of an event is the first one at or after a place that names it.
pub proof fn law_next_hook(hooks: Seq<HookConfig>, event: HookEvent, i: int)
    requires
        0 <= i <= hooks.len(),
    ensures
        i <= hook_from(hooks, event, i) <= hooks.len(),
        hook_from(hooks, event, i) < hooks.len() ==> hooks[hook_from(hooks, event, i)].event == event,
        forall|k: int| i <= k < hook_from(hooks, event, i) ==> (#[trigger] hooks[k]).event != event,
    decreases hooks.len() - i,
{
    if i < hooks.len() && hooks[i].event != event {
        law_next_hook(hooks, event, i + 1);
    }
}

/// What one more hook decides counts while none has blocked: it leaves the data as they are, puts others in
/// their place for the hooks behind it, or blocks. The event stays.
pub proof fn law_hook_in_row(c: ChainView, ds: Seq<DecisionView>, data: JsonView, reason: Seq<char>)
    requires
        chain_steps(c, ds).blocked is None,
    ensures
        ({
            let b = chain_steps(c, ds);
            &&& chain_steps(c, ds.push(DecisionView::Continue)) == b
            &&& chain_steps(c, ds.push(DecisionView::Rewrite(data))) == (ChainView {
                event: b.event,
                data,
                rewritten: true,
                blocked: None,
            })
            &&& chain_steps(c, ds.push(DecisionView::Block(reason))) == (ChainView {
                event: b.event,
                data: b.data,
                rewritten: b.rewritten,
                blocked: Some(reason),
            })
            &&& chain_decision(chain_steps(c, ds.push(DecisionView::Block(reason)))) == DecisionView::Block(
                reason,
            )
        }),
        chain_decision(c) == (if c.blocked is Some {
            DecisionView::Block(c.blocked->0)
        } else if c.rewritten {
            DecisionView::Rewrite(c.data)
        } else {
            DecisionView::Continue
        }),
{
    assert(ds.push(DecisionView::Continue).drop_last() =~= ds);
    assert(ds.push(DecisionView::Rewrite(data)).drop_last() =~= ds);
    assert(ds.push(DecisionView::Block(reason)).drop_last() =~= ds);
}

/// A row of hooks begins with the data of the event, neither rewritten nor blocked.
pub proof fn law_row_begins(event: HookEvent, data: JsonView)
    ensures
        chain_start(event, data).data == data,
        chain_start(event, data).event == event,
        chain_decision(chain_start(event, data)) == DecisionView::Continue,
        chain_steps(chain_start(event, data), Seq::empty()) == chain_start(event, data),
{
}

} // verus!
