use vstd::prelude::*;
use vstd::string::*;
use crate::output::{Output, OutputView};
use crate::tree::{strs, Node, Single};

verus! {

/// A name and a value of an environment variable, as text.
pub type PairView = (Seq<char>, Seq<char>);

pub open spec fn pairs(v: Seq<(String, String)>) -> Seq<PairView> {
    v.map_values(|p: (String, String)| (p.0@, p.1@))
}

pub open spec fn views(v: Seq<Output>) -> Seq<OutputView> {
    v.map_values(|o: Output| o@)
}

pub open spec fn opt_view(o: Option<String>) -> Option<Seq<char>> {
    match o {
        Some(s) => Some(s@),
        None => None,
    }
}

/// What the nodes above a leaf have decided for it: pending input, whether
/// the inherited environment is dropped, the variables set (in order) and
/// removed, and the working directory.
pub struct ContextView {
    pub input: Option<Seq<char>>,
    pub clear: bool,
    pub set: Seq<PairView>,
    pub unset: Seq<Seq<char>>,
    pub dir: Option<Seq<char>>,
}

impl ContextView {
    /// The context at the root of a run.
    pub open spec fn empty() -> ContextView {
        ContextView { input: None, clear: false, set: seq![], unset: seq![], dir: None }
    }

    pub open spec fn with_input(self, input: Option<Seq<char>>) -> ContextView {
        ContextView { input, ..self }
    }
}

/// The pairs of `base` whose name is not in `unset`, in order.
pub open spec fn kept(base: Seq<PairView>, unset: Seq<Seq<char>>) -> Seq<PairView>
    decreases base.len(),
{
    if base.len() == 0 {
        seq![]
    } else {
        let rest = kept(base.drop_last(), unset);
        if unset.contains(base.last().0) {
            rest
        } else {
            rest.push(base.last())
        }
    }
}

/// The environment a leaf is started with, as a list of assignments where a
/// later one of the same name wins: the inherited variables unless the
/// context clears them, without the removed ones, then the variables set.
pub open spec fn spawn_env(base: Seq<PairView>, ctx: ContextView) -> Seq<PairView> {
    (if ctx.clear {
        seq![]
    } else {
        kept(base, ctx.unset)
    }) + ctx.set
}

/// The process to start: a program, its arguments, its whole environment,
/// its working directory (or the caller's) and the text for its standard
/// input (or none, and standard input is closed at once).
pub struct RequestView {
    pub program: Seq<char>,
    pub args: Seq<Seq<char>>,
    pub env: Seq<PairView>,
    pub dir: Option<Seq<char>>,
    pub input: Option<Seq<char>>,
}

impl RequestView {
    pub open spec fn with_dir(self, dir: Option<Seq<char>>) -> RequestView {
        RequestView { dir, ..self }
    }
}

pub open spec fn request_of(s: Single, ctx: ContextView, base: Seq<PairView>) -> RequestView {
    RequestView {
        program: s.argv()[0],
        args: s.argv().drop_first(),
        env: spawn_env(base, ctx),
        dir: ctx.dir,
        input: ctx.input,
    }
}

/// Where an evaluation stands: it needs one more process started, or it is
/// done, its result being output number `result` of the `used` it consumed.
pub enum Progress {
    Spawn(RequestView),
    Done { result: nat, used: nat },
}

pub open spec fn shift(p: Progress, k: nat) -> Progress {
    match p {
        Progress::Spawn(r) => Progress::Spawn(r),
        Progress::Done { result, used } => Progress::Done { result: result + k, used: used + k },
    }
}

/// How far `node` gets in context `ctx` when the processes it has started so
/// far, in order, left `outs`.
pub open spec fn progress(
    node: Node,
    ctx: ContextView,
    base: Seq<PairView>,
    outs: Seq<OutputView>,
) -> Progress
    decreases node,
{
    match node {
        Node::Single(s) => if outs.len() == 0 {
            Progress::Spawn(request_of(s, ctx, base))
        } else {
            Progress::Done { result: 0, used: 1 }
        },
        Node::Env(e) => progress(
            *e.on,
            ContextView { set: ctx.set.push((e.key@, e.value@)), ..ctx },
            base,
            outs,
        ),
        Node::ClearEnv(c) => progress(*c.on, ContextView { clear: true, ..ctx }, base, outs),
        Node::ExceptEnv(e) => progress(
            *e.on,
            ContextView { unset: ctx.unset.push(e.key@), ..ctx },
            base,
            outs,
        ),
        Node::ExceptEnvs(e) => progress(
            *e.on,
            ContextView { unset: ctx.unset + strs(e.keys@), ..ctx },
            base,
            outs,
        ),
        Node::Dir(d) => progress(*d.on, ContextView { dir: Some(d.path@), ..ctx }, base, outs),
        Node::Input(i) => progress(
            *i.on,
            ctx.with_input(
                Some(
                    match ctx.input {
                        Some(prev) => prev + i.input@,
                        None => i.input@,
                    },
                ),
            ),
            base,
            outs,
        ),
        Node::Pipe(p) => match progress(*p.first, ctx, base, outs) {
            Progress::Spawn(r) => Progress::Spawn(r),
            Progress::Done { result, used } => shift(
                progress(
                    *p.second,
                    ctx.with_input(Some(outs[result as int].stdout)),
                    base,
                    outs.skip(used as int),
                ),
                used,
            ),
        },
        Node::Then(t) => match progress(*t.first, ctx, base, outs) {
            Progress::Spawn(r) => Progress::Spawn(r),
            Progress::Done { result, used } => shift(
                progress(*t.second, ctx.with_input(None), base, outs.skip(used as int)),
                used,
            ),
        },
        Node::And(a) => match progress(*a.first, ctx, base, outs) {
            Progress::Spawn(r) => Progress::Spawn(r),
            Progress::Done { result, used } => if outs[result as int].success() {
                shift(
                    progress(*a.second, ctx.with_input(None), base, outs.skip(used as int)),
                    used,
                )
            } else {
                Progress::Done { result, used }
            },
        },
        Node::Or(o) => match progress(*o.first, ctx, base, outs) {
            Progress::Spawn(r) => Progress::Spawn(r),
            Progress::Done { result, used } => if !outs[result as int].success() {
                shift(
                    progress(*o.second, ctx.with_input(None), base, outs.skip(used as int)),
                    used,
                )
            } else {
                Progress::Done { result, used }
            },
        },
    }
}

/// A finished evaluation names one of the outputs it consumed, and consumes
/// no more than there are.
pub proof fn lemma_done_in_bounds(
    node: Node,
    ctx: ContextView,
    base: Seq<PairView>,
    outs: Seq<OutputView>,
)
    ensures
        progress(node, ctx, base, outs) matches Progress::Done { result, used } ==> result
            < used <= outs.len(),
    decreases node,
{
    match node {
        Node::Single(_) => {},
        Node::Env(e) => lemma_done_in_bounds(
            *e.on,
            ContextView { set: ctx.set.push((e.key@, e.value@)), ..ctx },
            base,
            outs,
        ),
        Node::ClearEnv(c) => lemma_done_in_bounds(
            *c.on,
            ContextView { clear: true, ..ctx },
            base,
            outs,
        ),
        Node::ExceptEnv(e) => lemma_done_in_bounds(
            *e.on,
            ContextView { unset: ctx.unset.push(e.key@), ..ctx },
            base,
            outs,
        ),
        Node::ExceptEnvs(e) => lemma_done_in_bounds(
            *e.on,
            ContextView { unset: ctx.unset + strs(e.keys@), ..ctx },
            base,
            outs,
        ),
        Node::Dir(d) => lemma_done_in_bounds(
            *d.on,
            ContextView { dir: Some(d.path@), ..ctx },
            base,
            outs,
        ),
        Node::Input(i) => lemma_done_in_bounds(
            *i.on,
            ctx.with_input(
                Some(
                    match ctx.input {
                        Some(prev) => prev + i.input@,
                        None => i.input@,
                    },
                ),
            ),
            base,
            outs,
        ),
        Node::Pipe(p) => {
            lemma_done_in_bounds(*p.first, ctx, base, outs);
            if let Progress::Done { result, used } = progress(*p.first, ctx, base, outs) {
                lemma_done_in_bounds(
                    *p.second,
                    ctx.with_input(Some(outs[result as int].stdout)),
                    base,
                    outs.skip(used as int),
                );
            }
        },
        Node::Then(t) => {
            lemma_done_in_bounds(*t.first, ctx, base, outs);
            if let Progress::Done { result, used } = progress(*t.first, ctx, base, outs) {
                lemma_done_in_bounds(*t.second, ctx.with_input(None), base, outs.skip(used as int));
            }
        },
        Node::And(a) => {
            lemma_done_in_bounds(*a.first, ctx, base, outs);
            if let Progress::Done { result, used } = progress(*a.first, ctx, base, outs) {
                lemma_done_in_bounds(*a.second, ctx.with_input(None), base, outs.skip(used as int));
            }
        },
        Node::Or(o) => {
            lemma_done_in_bounds(*o.first, ctx, base, outs);
            if let Progress::Done { result, used } = progress(*o.first, ctx, base, outs) {
                lemma_done_in_bounds(*o.second, ctx.with_input(None), base, outs.skip(used as int));
            }
        },
    }
}

/// The gathered context, as the evaluation carries it down the tree.
struct Context {
    input: Option<String>,
    clear: bool,
    set: Vec<(String, String)>,
    unset: Vec<String>,
    dir: Option<String>,
}

impl View for Context {
    type V = ContextView;

    closed spec fn view(&self) -> ContextView {
        ContextView {
            input: opt_view(self.input),
            clear: self.clear,
            set: pairs(self.set@),
            unset: strs(self.unset@),
            dir: opt_view(self.dir),
        }
    }
}

/// A process to start, as [`RequestView`] describes it.
#[derive(Clone, Debug)]
pub struct Request {
    pub program: String,
    pub args: Vec<String>,
    pub env: Vec<(String, String)>,
    pub dir: Option<String>,
    pub input: Option<String>,
}

impl View for Request {
    type V = RequestView;

    open spec fn view(&self) -> RequestView {
        RequestView {
            program: self.program@,
            args: strs(self.args@),
            env: pairs(self.env@),
            dir: opt_view(self.dir),
            input: opt_view(self.input),
        }
    }
}

/// One step of a run: start this process, or stop with the output number
/// `result` of those recorded.
pub enum Step {
    Spawn(Request),
    Done { result: usize, used: usize },
}

impl View for Step {
    type V = Progress;

    open spec fn view(&self) -> Progress {
        match self {
            Step::Spawn(r) => Progress::Spawn(r@),
            Step::Done { result, used } => Progress::Done {
                result: *result as nat,
                used: *used as nat,
            },
        }
    }
}

fn copy_text(o: &Option<String>) -> (r: Option<String>)
    ensures
        opt_view(r) == opt_view(*o),
{
    match o {
        Some(s) => Some(s.clone()),
        None => None,
    }
}

fn names_contain(names: &Vec<String>, k: &String) -> (r: bool)
    ensures
        r == strs(names@).contains(k@),
{
    let mut i: usize = 0;
    while i < names.len()
        invariant
            i <= names@.len(),
            forall|j: int| 0 <= j < i ==> strs(names@)[j] != k@,
        decreases names@.len() - i,
    {
        if names[i] == *k {
            proof {
                assert(strs(names@)[i as int] == k@);
            }
            return true;
        }
        i = i + 1;
    }
    proof {
        if strs(names@).contains(k@) {
            let j = choose|j: int| 0 <= j < strs(names@).len() && strs(names@)[j] == k@;
            assert(strs(names@)[j] != k@);
        }
    }
    false
}

fn env_for(base: &Vec<(String, String)>, ctx: &Context) -> (r: Vec<(String, String)>)
    ensures
        pairs(r@) == spawn_env(pairs(base@), ctx@),
{
    let mut r: Vec<(String, String)> = Vec::new();
    if !ctx.clear {
        let mut i: usize = 0;
        while i < base.len()
            invariant
                i <= base@.len(),
                pairs(r@) == kept(pairs(base@).take(i as int), strs(ctx.unset@)),
            decreases base@.len() - i,
        {
            let ghost prev = r@;
            proof {
                let b = pairs(base@).take(i + 1);
                assert(b.drop_last() =~= pairs(base@).take(i as int));
                assert(b.last() == pairs(base@)[i as int]);
            }
            if !names_contain(&ctx.unset, &base[i].0) {
                let pair = (base[i].0.clone(), base[i].1.clone());
                r.push(pair);
                proof {
                    assert(pairs(r@) =~= pairs(prev).push(pairs(base@)[i as int]));
                }
            }
            i = i + 1;
        }
        proof {
            assert(pairs(base@).take(i as int) =~= pairs(base@));
        }
    }
    let ghost head = r@;
    let mut j: usize = 0;
    while j < ctx.set.len()
        invariant
            j <= ctx.set@.len(),
            r@ == head + ctx.set@.take(j as int),
        decreases ctx.set@.len() - j,
    {
        let pair = (ctx.set[j].0.clone(), ctx.set[j].1.clone());
        r.push(pair);
        proof {
            assert(ctx.set@.take(j + 1) =~= ctx.set@.take(j as int).push(ctx.set@[j as int]));
        }
        j = j + 1;
    }
    proof {
        assert(ctx.set@.take(j as int) =~= ctx.set@);
        assert(pairs(head + ctx.set@) =~= pairs(head) + pairs(ctx.set@));
    }
    r
}

fn request(s: &Single, ctx: &Context, base: &Vec<(String, String)>) -> (r: Request)
    ensures
        r@ == request_of(*s, ctx@, pairs(base@)),
{
    Request {
        program: s.program().clone(),
        args: s.arguments(),
        env: env_for(base, ctx),
        dir: copy_text(&ctx.dir),
        input: copy_text(&ctx.input),
    }
}

/// After `used` outputs went to the first child, the second child goes on
/// from there; its step is shifted back into the parent's numbering.
fn shifted(second: Step, used: usize, Ghost(avail): Ghost<nat>) -> (r: Step)
    requires
        second@ matches Progress::Done { result, used: u } ==> result < u && used + u <= avail,
        avail <= usize::MAX,
    ensures
        r@ == shift(second@, used as nat),
{
    match second {
        Step::Spawn(req) => Step::Spawn(req),
        Step::Done { result, used: u } => Step::Done { result: result + used, used: u + used },
    }
}

/// Evaluates `node` in context `ctx` as far as the outputs from `start` on
/// allow. The context is handed back as it came.
#[verifier::rlimit(60)]
fn step(
    node: &Node,
    ctx: &mut Context,
    base: &Vec<(String, String)>,
    outs: &Vec<Output>,
    start: usize,
) -> (r: Step)
    requires
        start <= outs@.len(),
    ensures
        final(ctx)@ == old(ctx)@,
        r@ == progress(*node, old(ctx)@, pairs(base@), views(outs@).skip(start as int)),
    decreases node,
{
    let ghost rest = views(outs@).skip(start as int);
    let ghost c0 = ctx@;
    let total = outs.len();
    assert(rest.len() == total - start);
    match node {
        Node::Single(s) => {
            if start < outs.len() {
                Step::Done { result: 0, used: 1 }
            } else {
                Step::Spawn(request(s, ctx, base))
            }
        },
        Node::Env(e) => {
            ctx.set.push((e.key.clone(), e.value.clone()));
            proof {
                assert(ctx@.set =~= c0.set.push((e.key@, e.value@)));
                assert(ctx@ == ContextView { set: c0.set.push((e.key@, e.value@)), ..c0 });
            }
            let r = step(&e.on, ctx, base, outs, start);
            let ghost mid = ctx.set@;
            ctx.set.pop();
            proof {
                assert(pairs(mid.drop_last()) =~= pairs(mid).drop_last());
                assert(ctx@.set =~= c0.set);
            }
            r
        },
        Node::ClearEnv(c) => {
            let was = ctx.clear;
            ctx.clear = true;
            let r = step(&c.on, ctx, base, outs, start);
            ctx.clear = was;
            r
        },
        Node::ExceptEnv(e) => {
            ctx.unset.push(e.key.clone());
            proof {
                assert(ctx@.unset =~= c0.unset.push(e.key@));
                assert(ctx@ == ContextView { unset: c0.unset.push(e.key@), ..c0 });
            }
            let r = step(&e.on, ctx, base, outs, start);
            let ghost mid = ctx.unset@;
            ctx.unset.pop();
            proof {
                assert(strs(mid.drop_last()) =~= strs(mid).drop_last());
                assert(ctx@.unset =~= c0.unset);
            }
            r
        },
        Node::ExceptEnvs(e) => {
            let n = ctx.unset.len();
            let mut i: usize = 0;
            while i < e.keys.len()
                invariant
                    i <= e.keys@.len(),
                    n == c0.unset.len(),
                    ctx@ == (ContextView { unset: c0.unset + strs(e.keys@).take(i as int), ..c0 }),
                decreases e.keys@.len() - i,
            {
                let ghost prev = ctx.unset@;
                ctx.unset.push(e.keys[i].clone());
                proof {
                    assert(strs(ctx.unset@) =~= strs(prev).push(strs(e.keys@)[i as int]));
                    assert(strs(e.keys@).take(i + 1) =~= strs(e.keys@).take(i as int).push(
                        strs(e.keys@)[i as int],
                    ));
                    assert(ctx@.unset =~= c0.unset + strs(e.keys@).take(i + 1));
                }
                i = i + 1;
            }
            proof {
                assert(strs(e.keys@).take(i as int) =~= strs(e.keys@));
            }
            let r = step(&e.on, ctx, base, outs, start);
            let ghost mid = ctx.unset@;
            ctx.unset.truncate(n);
            proof {
                assert(strs(mid.take(n as int)) =~= strs(mid).take(n as int));
                assert(ctx@.unset =~= c0.unset);
            }
            r
        },
        Node::Dir(d) => {
            let mut dir = Some(d.path.clone());
            std::mem::swap(&mut ctx.dir, &mut dir);
            let r = step(&d.on, ctx, base, outs, start);
            std::mem::swap(&mut ctx.dir, &mut dir);
            r
        },
        Node::Input(i) => {
            let text = match &ctx.input {
                Some(prev) => prev.clone().concat(i.input.as_str()),
                None => i.input.clone(),
            };
            let mut input = Some(text);
            std::mem::swap(&mut ctx.input, &mut input);
            let r = step(&i.on, ctx, base, outs, start);
            std::mem::swap(&mut ctx.input, &mut input);
            r
        },
        Node::Pipe(p) => {
            let first = step(&p.first, ctx, base, outs, start);
            match first {
                Step::Spawn(req) => Step::Spawn(req),
                Step::Done { result, used } => {
                    proof {
                        lemma_done_in_bounds(*p.first, c0, pairs(base@), rest);
                    }
                    let text = outs[start + result].stdout().to_owned();
                    proof {
                        assert(views(outs@)[start + result] == outs@[start + result]@);
                    }
                    let mut input = Some(text);
                    std::mem::swap(&mut ctx.input, &mut input);
                    proof {
                        assert(rest.skip(used as int) =~= views(outs@).skip(start + used));
                    }
                    let second = step(&p.second, ctx, base, outs, start + used);
                    std::mem::swap(&mut ctx.input, &mut input);
                    proof {
                        lemma_done_in_bounds(
                            *p.second,
                            c0.with_input(Some(rest[result as int].stdout)),
                            pairs(base@),
                            rest.skip(used as int),
                        );
                    }
                    shifted(second, used, Ghost(rest.len()))
                },
            }
        },
        Node::Then(t) => {
            let first = step(&t.first, ctx, base, outs, start);
            match first {
                Step::Spawn(req) => Step::Spawn(req),
                Step::Done { result, used } => {
                    proof {
                        lemma_done_in_bounds(*t.first, c0, pairs(base@), rest);
                        assert(rest.skip(used as int) =~= views(outs@).skip(start + used));
                    }
                    let mut input: Option<String> = None;
                    std::mem::swap(&mut ctx.input, &mut input);
                    let second = step(&t.second, ctx, base, outs, start + used);
                    std::mem::swap(&mut ctx.input, &mut input);
                    proof {
                        lemma_done_in_bounds(
                            *t.second,
                            c0.with_input(None),
                            pairs(base@),
                            rest.skip(used as int),
                        );
                    }
                    shifted(second, used, Ghost(rest.len()))
                },
            }
        },
        Node::And(a) => {
            let first = step(&a.first, ctx, base, outs, start);
            match first {
                Step::Spawn(req) => Step::Spawn(req),
                Step::Done { result, used } => {
                    proof {
                        lemma_done_in_bounds(*a.first, c0, pairs(base@), rest);
                        assert(rest.skip(used as int) =~= views(outs@).skip(start + used));
                        assert(views(outs@)[start + result] == outs@[start + result]@);
                    }
                    if outs[start + result].success() {
                        let mut input: Option<String> = None;
                        std::mem::swap(&mut ctx.input, &mut input);
                        let second = step(&a.second, ctx, base, outs, start + used);
                        std::mem::swap(&mut ctx.input, &mut input);
                        proof {
                            lemma_done_in_bounds(
                                *a.second,
                                c0.with_input(None),
                                pairs(base@),
                                rest.skip(used as int),
                            );
                        }
                        shifted(second, used, Ghost(rest.len()))
                    } else {
                        Step::Done { result, used }
                    }
                },
            }
        },
        Node::Or(o) => {
            let first = step(&o.first, ctx, base, outs, start);
            match first {
                Step::Spawn(req) => Step::Spawn(req),
                Step::Done { result, used } => {
                    proof {
                        lemma_done_in_bounds(*o.first, c0, pairs(base@), rest);
                        assert(rest.skip(used as int) =~= views(outs@).skip(start + used));
                        assert(views(outs@)[start + result] == outs@[start + result]@);
                    }
                    if !outs[start + result].success() {
                        let mut input: Option<String> = None;
                        std::mem::swap(&mut ctx.input, &mut input);
                        let second = step(&o.second, ctx, base, outs, start + used);
                        std::mem::swap(&mut ctx.input, &mut input);
                        proof {
                            lemma_done_in_bounds(
                                *o.second,
                                c0.with_input(None),
                                pairs(base@),
                                rest.skip(used as int),
                            );
                        }
                        shifted(second, used, Ghost(rest.len()))
                    } else {
                        Step::Done { result, used }
                    }
                },
            }
        },
    }
}

/// One evaluation of a command tree. The caller asks for the next step,
/// starts the process it names, records that process's output, and asks
/// again, until the step names the output that is the tree's result. An
/// I/O failure of the caller's ends the run: no step ever depends on one.
pub struct Run {
    base: Vec<(String, String)>,
    outs: Vec<Output>,
}

impl Run {
    /// The inherited environment, where a later pair of the same name wins.
    pub closed spec fn base(&self) -> Seq<PairView> {
        pairs(self.base@)
    }

    /// The outputs recorded so far, in the order their processes ran.
    pub closed spec fn outputs(&self) -> Seq<OutputView> {
        views(self.outs@)
    }

    /// A run that has started nothing yet, in the inherited environment
    /// `base_env`.
    pub fn new(base_env: Vec<(String, String)>) -> (r: Run)
        ensures
            r.base() == pairs(base_env@),
            r.outputs() == Seq::<OutputView>::empty(),
    {
        let r = Run { base: base_env, outs: Vec::new() };
        proof {
            assert(views(r.outs@) =~= Seq::<OutputView>::empty());
        }
        r
    }

    /// What `node` needs next, given the outputs recorded so far.
    pub fn next(&self, node: &Node) -> (r: Step)
        ensures
            r@ == progress(*node, ContextView::empty(), self.base(), self.outputs()),
            r matches Step::Done { result, used } ==> result < used <= self.outputs().len(),
    {
        let mut ctx = Context {
            input: None,
            clear: false,
            set: Vec::new(),
            unset: Vec::new(),
            dir: None,
        };
        proof {
            assert(pairs(ctx.set@) =~= Seq::<PairView>::empty());
            assert(strs(ctx.unset@) =~= Seq::<Seq<char>>::empty());
            assert(ctx@ == ContextView::empty());
            assert(views(self.outs@).skip(0) =~= views(self.outs@));
        }
        proof {
            lemma_done_in_bounds(*node, ctx@, pairs(self.base@), views(self.outs@));
        }
        step(node, &mut ctx, &self.base, &self.outs, 0)
    }

    /// Records the output of the process the last step asked for.
    pub fn record(&mut self, output: Output)
        ensures
            final(self).base() == old(self).base(),
            final(self).outputs() == old(self).outputs().push(output@),
    {
        let ghost prev = self.outs@;
        self.outs.push(output);
        proof {
            assert(views(self.outs@) =~= views(prev).push(output@));
        }
    }

    /// The recorded output number `index`, taking the run apart.
    pub fn into_output(self, index: usize) -> (r: Output)
        requires
            index < self.outputs().len(),
        ensures
            r@ == self.outputs()[index as int],
    {
        let mut outs = self.outs;
        outs.swap_remove(index)
    }
}

} // verus!
