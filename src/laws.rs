use vstd::prelude::*;
use crate::eval::{
    kept, progress, request_of, shift, spawn_env, ContextView, PairView, Progress, Run,
};
use crate::output::OutputView;
use crate::tree::{strs, And, Dir, Input, Node, Or, Pipe, Single, Then};
use crate::eval::lemma_done_in_bounds;

verus! {

/// The environment a list of assignments describes: a later assignment of a
/// name replaces an earlier one.
pub open spec fn env_map(s: Seq<PairView>) -> Map<Seq<char>, Seq<char>>
    decreases s.len(),
{
    if s.len() == 0 {
        Map::empty()
    } else {
        env_map(s.drop_last()).insert(s.last().0, s.last().1)
    }
}

proof fn lemma_env_map_concat(a: Seq<PairView>, b: Seq<PairView>)
    ensures
        env_map(a + b) == env_map(a).union_prefer_right(env_map(b)),
    decreases b.len(),
{
    if b.len() == 0 {
        assert(a + b =~= a);
        assert(env_map(a).union_prefer_right(env_map(b)) =~= env_map(a));
    } else {
        assert((a + b).drop_last() =~= a + b.drop_last());
        lemma_env_map_concat(a, b.drop_last());
        assert(env_map(a + b) =~= env_map(a).union_prefer_right(env_map(b)));
    }
}

proof fn lemma_env_map_kept(base: Seq<PairView>, unset: Seq<Seq<char>>)
    ensures
        env_map(kept(base, unset)) == env_map(base).remove_keys(unset.to_set()),
    decreases base.len(),
{
    if base.len() == 0 {
        assert(env_map(base).remove_keys(unset.to_set()) =~= Map::empty());
    } else {
        lemma_env_map_kept(base.drop_last(), unset);
        let x = base.last();
        if unset.contains(x.0) {
            assert(unset.to_set().contains(x.0));
        } else {
            let r = kept(base.drop_last(), unset);
            assert(r.push(x).drop_last() =~= r);
            assert(!unset.to_set().contains(x.0));
        }
        assert(env_map(kept(base, unset)) =~= env_map(base).remove_keys(unset.to_set()));
    }
}

/// The environment a process is started with: the inherited variables,
/// unless cleared, without the removed names; over them every variable set
/// on the way down, a later setting of a name winning. A variable that is
/// set is there with its value even when the inherited environment was
/// cleared or the name removed; a removed or cleared name that is not set is
/// absent.
pub proof fn law_env_precedence(base: Seq<PairView>, ctx: ContextView, name: Seq<char>)
    ensures
        env_map(spawn_env(base, ctx)) == (if ctx.clear {
            Map::<Seq<char>, Seq<char>>::empty()
        } else {
            env_map(base).remove_keys(ctx.unset.to_set())
        }).union_prefer_right(env_map(ctx.set)),
        env_map(ctx.set).contains_key(name) ==> env_map(spawn_env(base, ctx)).contains_key(name)
            && env_map(spawn_env(base, ctx))[name] == env_map(ctx.set)[name],
        !env_map(ctx.set).contains_key(name) && (ctx.clear || ctx.unset.contains(name))
            ==> !env_map(spawn_env(base, ctx)).contains_key(name),
{
    let head = if ctx.clear {
        seq![]
    } else {
        kept(base, ctx.unset)
    };
    lemma_env_map_concat(head, ctx.set);
    if ctx.clear {
        assert(env_map(head) =~= Map::<Seq<char>, Seq<char>>::empty());
    } else {
        lemma_env_map_kept(base, ctx.unset);
        if ctx.unset.contains(name) {
            assert(ctx.unset.to_set().contains(name));
        }
    }
}

/// When the first command of `&&` fails, the whole has its output exactly,
/// and the second is never started: whatever outputs come after those the
/// first took, the result stays the first's.
pub proof fn law_and_stops_on_failure(
    a: And,
    ctx: ContextView,
    base: Seq<PairView>,
    outs: Seq<OutputView>,
    more: Seq<OutputView>,
)
    ensures
        progress(*a.first, ctx, base, outs) matches Progress::Done { result, used } ==> !outs[result as int].success()
            ==> progress(Node::And(a), ctx, base, outs + more) == progress(*a.first, ctx, base, outs),
{
    law_done_is_final(Node::And(a), ctx, base, outs, more);
}

/// When the first command of `&&` succeeds, the second runs without input,
/// in the same context, and its output is the result.
pub proof fn law_and_goes_on_after_success(
    a: And,
    ctx: ContextView,
    base: Seq<PairView>,
    outs: Seq<OutputView>,
)
    ensures
        progress(*a.first, ctx, base, outs) matches Progress::Done { result, used } ==> outs[result as int].success()
            ==> progress(Node::And(a), ctx, base, outs) == shift(
            progress(*a.second, ctx.with_input(None), base, outs.skip(used as int)),
            used,
        ),
{
}

/// When the first command of `||` succeeds, the whole has its output
/// exactly, and the second is never started: whatever outputs come after
/// those the first took, the result stays the first's.
pub proof fn law_or_stops_on_success(
    o: Or,
    ctx: ContextView,
    base: Seq<PairView>,
    outs: Seq<OutputView>,
    more: Seq<OutputView>,
)
    ensures
        progress(*o.first, ctx, base, outs) matches Progress::Done { result, used } ==> outs[result as int].success()
            ==> progress(Node::Or(o), ctx, base, outs + more) == progress(*o.first, ctx, base, outs),
{
    law_done_is_final(Node::Or(o), ctx, base, outs, more);
}

/// When the first command of `||` fails, the second runs without input, in
/// the same context, and its output is the result.
pub proof fn law_or_goes_on_after_failure(
    o: Or,
    ctx: ContextView,
    base: Seq<PairView>,
    outs: Seq<OutputView>,
)
    ensures
        progress(*o.first, ctx, base, outs) matches Progress::Done { result, used } ==> !outs[result as int].success()
            ==> progress(Node::Or(o), ctx, base, outs) == shift(
            progress(*o.second, ctx.with_input(None), base, outs.skip(used as int)),
            used,
        ),
{
}

/// Whatever the first command of `;` exited with, the second runs after it
/// without input, in the same context, and its output is the result.
pub proof fn law_then_runs_both(
    t: Then,
    ctx: ContextView,
    base: Seq<PairView>,
    outs: Seq<OutputView>,
)
    ensures
        progress(*t.first, ctx, base, outs) matches Progress::Done { result, used }
            ==> progress(Node::Then(t), ctx, base, outs) == shift(
            progress(*t.second, ctx.with_input(None), base, outs.skip(used as int)),
            used,
        ),
{
}

/// The second command of a pipe gets the whole standard output of the first
/// as its input, in the same context, and its output is the result.
pub proof fn law_pipe_feeds_stdout(
    p: Pipe,
    ctx: ContextView,
    base: Seq<PairView>,
    outs: Seq<OutputView>,
)
    ensures
        progress(*p.first, ctx, base, outs) matches Progress::Done { result, used }
            ==> progress(Node::Pipe(p), ctx, base, outs) == shift(
            progress(
                *p.second,
                ctx.with_input(Some(outs[result as int].stdout)),
                base,
                outs.skip(used as int),
            ),
            used,
        ),
{
}

/// A command given input text `T` at the root is started with exactly `T`
/// on its standard input, and the output of that process is the result.
pub proof fn law_input_reaches_command(
    i: Input,
    s: Single,
    base: Seq<PairView>,
    out: OutputView,
)
    requires
        *i.on == Node::Single(s),
    ensures
        progress(Node::Input(i), ContextView::empty(), base, seq![]) matches Progress::Spawn(
            req,
        ) && req.input == Some(i.input@),
        progress(Node::Input(i), ContextView::empty(), base, seq![out]) == (Progress::Done {
            result: 0,
            used: 1,
        }),
{
    reveal_with_fuel(progress, 2);
}

/// A command under a directory node is started in exactly that directory,
/// whatever directory an outer node chose.
pub proof fn law_dir_sets_working_directory(
    d: Dir,
    s: Single,
    ctx: ContextView,
    base: Seq<PairView>,
)
    requires
        *d.on == Node::Single(s),
    ensures
        progress(Node::Dir(d), ctx, base, seq![]) matches Progress::Spawn(req) && req.dir == Some(
            d.path@,
        ) && req == request_of(s, ctx, base).with_dir(Some(d.path@)),
{
    reveal_with_fuel(progress, 2);
}

/// Two runs of one tree are independent: each step depends on the tree, the
/// inherited environment and the outputs that run recorded, and on nothing
/// another run did.
pub proof fn law_runs_independent(node: Node, first: Run, second: Run)
    requires
        first.base() == second.base(),
        first.outputs() == second.outputs(),
    ensures
        progress(node, ContextView::empty(), first.base(), first.outputs()) == progress(
            node,
            ContextView::empty(),
            second.base(),
            second.outputs(),
        ),
{
}

/// Once an evaluation is done it stays done with the same result, whatever
/// further outputs come: a finished tree asks for no more processes.
pub proof fn law_done_is_final(
    node: Node,
    ctx: ContextView,
    base: Seq<PairView>,
    outs: Seq<OutputView>,
    more: Seq<OutputView>,
)
    ensures
        progress(node, ctx, base, outs) is Done ==> progress(node, ctx, base, outs + more)
            == progress(node, ctx, base, outs),
    decreases node,
{
    lemma_done_in_bounds(node, ctx, base, outs);
    match node {
        Node::Single(_) => {},
        Node::Env(e) => law_done_is_final(
            *e.on,
            ContextView { set: ctx.set.push((e.key@, e.value@)), ..ctx },
            base,
            outs,
            more,
        ),
        Node::ClearEnv(c) => law_done_is_final(
            *c.on,
            ContextView { clear: true, ..ctx },
            base,
            outs,
            more,
        ),
        Node::ExceptEnv(e) => law_done_is_final(
            *e.on,
            ContextView { unset: ctx.unset.push(e.key@), ..ctx },
            base,
            outs,
            more,
        ),
        Node::ExceptEnvs(e) => law_done_is_final(
            *e.on,
            ContextView { unset: ctx.unset + strs(e.keys@), ..ctx },
            base,
            outs,
            more,
        ),
        Node::Dir(d) => law_done_is_final(
            *d.on,
            ContextView { dir: Some(d.path@), ..ctx },
            base,
            outs,
            more,
        ),
        Node::Input(i) => law_done_is_final(
            *i.on,
            ctx.with_input(
                Some(
                    match ctx.input {
                        Some(prev) => prev + i.input@,
                        None => i.input@,
                    },
                ),
            ),
            base,
            outs,
            more,
        ),
        Node::Pipe(p) => {
            law_done_is_final(*p.first, ctx, base, outs, more);
            lemma_done_in_bounds(*p.first, ctx, base, outs);
            if let Progress::Done { result, used } = progress(*p.first, ctx, base, outs) {
                assert((outs + more)[result as int] == outs[result as int]);
                assert((outs + more).skip(used as int) =~= outs.skip(used as int) + more);
                law_done_is_final(
                    *p.second,
                    ctx.with_input(Some(outs[result as int].stdout)),
                    base,
                    outs.skip(used as int),
                    more,
                );
            }
        },
        Node::Then(t) => {
            law_done_is_final(*t.first, ctx, base, outs, more);
            lemma_done_in_bounds(*t.first, ctx, base, outs);
            if let Progress::Done { result, used } = progress(*t.first, ctx, base, outs) {
                assert((outs + more).skip(used as int) =~= outs.skip(used as int) + more);
                law_done_is_final(
                    *t.second,
                    ctx.with_input(None),
                    base,
                    outs.skip(used as int),
                    more,
                );
            }
        },
        Node::And(a) => {
            law_done_is_final(*a.first, ctx, base, outs, more);
            lemma_done_in_bounds(*a.first, ctx, base, outs);
            if let Progress::Done { result, used } = progress(*a.first, ctx, base, outs) {
                assert((outs + more)[result as int] == outs[result as int]);
                assert((outs + more).skip(used as int) =~= outs.skip(used as int) + more);
                law_done_is_final(
                    *a.second,
                    ctx.with_input(None),
                    base,
                    outs.skip(used as int),
                    more,
                );
            }
        },
        Node::Or(o) => {
            law_done_is_final(*o.first, ctx, base, outs, more);
            lemma_done_in_bounds(*o.first, ctx, base, outs);
            if let Progress::Done { result, used } = progress(*o.first, ctx, base, outs) {
                assert((outs + more)[result as int] == outs[result as int]);
                assert((outs + more).skip(used as int) =~= outs.skip(used as int) + more);
                law_done_is_final(
                    *o.second,
                    ctx.with_input(None),
                    base,
                    outs.skip(used as int),
                    more,
                );
            }
        },
    }
}

} // verus!
