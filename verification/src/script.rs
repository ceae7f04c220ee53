//! A concrete command kind for the engine: a labelled step over a log.
//!
//! A `ScriptCmd` appends its label to a `Log` (or skips, or fails) and
//! emits its children, in order, as follow-ups. Commands serialize to a
//! bracketed token form, and `lemma_round_trip` proves that parsing the
//! serialization of any command yields it back, so the engine's
//! round trip never changes what a well-formed command does.

use vstd::prelude::*;

use crate::engine::{
    outcome_of, resolves_within, run, run_model, views, Arguable, EngineError, Process,
    RunOutcome,
};

verus! {

broadcast use vstd::std_specs::vec::group_vec_axioms;

/// What one step does to the log when executed.
#[derive(Clone, Copy)]
pub enum StepKind {
    /// Append the label to the log and emit the children.
    Run,
    /// Report failure, aborting the whole run.
    Fail,
    /// Leave the log unchanged and emit the children.
    Skip,
}

/// The mathematical view of a script command.
pub ghost struct GCmd {
    /// The view of the command's label.
    pub label: Seq<char>,
    /// What the step does.
    pub kind: StepKind,
    /// The views of the follow-up commands, in order.
    pub children: Seq<GCmd>,
}

/// A script command: a labelled step that may emit follow-up commands.
pub struct ScriptCmd {
    /// The label appended to the log when the step runs.
    pub label: String,
    /// What the step does.
    pub kind: StepKind,
    /// The follow-up commands the step emits, in order.
    pub children: Vec<ScriptCmd>,
}

/// The view of a command: its label and kind with the views of its
/// children.
pub open spec fn gview(c: ScriptCmd) -> GCmd
    decreases c,
{
    GCmd { label: c.label@, kind: c.kind, children: gview_list(c.children@) }
}

/// The views of a list of commands, in order.
pub open spec fn gview_list(cs: Seq<ScriptCmd>) -> Seq<GCmd>
    decreases cs,
{
    if cs.len() == 0 {
        Seq::empty()
    } else {
        seq![gview(cs.first())] + gview_list(cs.drop_first())
    }
}

/// The listwise view is the sequence of the members' views.
pub proof fn lemma_gview_list(cs: Seq<ScriptCmd>)
    ensures
        gview_list(cs).len() == cs.len(),
        forall|i: int| 0 <= i < cs.len() ==> gview_list(cs)[i] == #[trigger] gview(cs[i]),
    decreases cs,
{
    if cs.len() != 0 {
        lemma_gview_list(cs.drop_first());
        assert forall|i: int| 0 <= i < cs.len() implies gview_list(cs)[i] == #[trigger] gview(
            cs[i],
        ) by {
            if i > 0 {
                assert(cs.drop_first()[i - 1] == cs[i]);
            }
        }
    }
}

impl View for ScriptCmd {
    type V = GCmd;

    open spec fn view(&self) -> GCmd {
        gview(*self)
    }
}

/// The state the script commands act on: a log of the labels executed,
/// in order, viewed as a sequence of strings.
pub struct Log {
    /// The labels recorded so far.
    pub entries: Vec<String>,
}

impl View for Log {
    type V = Seq<Seq<char>>;

    open spec fn view(&self) -> Seq<Seq<char>> {
        views(self.entries@)
    }
}

/// The token that encodes a step kind.
pub open spec fn kind_token(k: StepKind) -> Seq<char> {
    match k {
        StepKind::Run => "run"@,
        StepKind::Fail => "fail"@,
        StepKind::Skip => "skip"@,
    }
}

/// The step kind, if any, that a token decodes to.
pub open spec fn kind_of_token(t: Seq<char>) -> Option<StepKind> {
    if t == "run"@ {
        Some(StepKind::Run)
    } else if t == "fail"@ {
        Some(StepKind::Fail)
    } else if t == "skip"@ {
        Some(StepKind::Skip)
    } else {
        None
    }
}

/// The tokens of one command: an opening mark, the kind, the label, the
/// children in order, and a closing mark.
pub open spec fn ser_cmd(g: GCmd) -> Seq<Seq<char>>
    decreases g,
{
    seq!["("@, kind_token(g.kind), g.label] + ser_cmds(g.children) + seq![")"@]
}

/// The tokens of a list of commands, in order.
pub open spec fn ser_cmds(gs: Seq<GCmd>) -> Seq<Seq<char>>
    decreases gs,
{
    if gs.len() == 0 {
        Seq::empty()
    } else {
        ser_cmd(gs.first()) + ser_cmds(gs.drop_first())
    }
}

/// Parses one command at token position `i`: the command and the
/// position just past its closing mark.
pub open spec fn parse_cmd_at(toks: Seq<Seq<char>>, i: int) -> Option<(GCmd, int)>
    decreases toks.len() - i, 0int,
{
    if i < 0 || i + 3 > toks.len() {
        None
    } else if toks[i] != "("@ {
        None
    } else {
        match kind_of_token(toks[i + 1]) {
            None => None,
            Some(k) => match parse_cmds_at(toks, i + 3) {
                None => None,
                Some(p) => Some((GCmd { label: toks[i + 2], kind: k, children: p.0 }, p.1)),
            },
        }
    }
}

/// Parses commands at position `i` up to a closing mark, which it
/// consumes. A parsed command always stands past its starting position
/// (see `lemma_parse_cmd_bounds`); the bound on `j` only keeps the
/// recursion well founded.
pub open spec fn parse_cmds_at(toks: Seq<Seq<char>>, i: int) -> Option<(Seq<GCmd>, int)>
    decreases toks.len() - i, 1int,
{
    if i < 0 || i >= toks.len() {
        None
    } else if toks[i] == ")"@ {
        Some((Seq::empty(), i + 1))
    } else {
        match parse_cmd_at(toks, i) {
            None => None,
            Some(p) => {
                let j = if i + 1 <= p.1 && p.1 <= toks.len() {
                    p.1
                } else {
                    i + 1
                };
                match parse_cmds_at(toks, j) {
                    None => None,
                    Some(q) => Some((seq![p.0] + q.0, q.1)),
                }
            },
        }
    }
}

/// The marker and kind tokens are pairwise distinct, and decoding a kind
/// token yields the kind back.
pub proof fn lemma_tokens_distinct()
    ensures
        "("@ != ")"@,
        forall|k: StepKind| #[trigger] kind_of_token(kind_token(k)) == Some(k),
        forall|k: StepKind| #[trigger] kind_token(k) != "("@ && kind_token(k) != ")"@,
{
    reveal_strlit("(");
    reveal_strlit(")");
    reveal_strlit("run");
    reveal_strlit("fail");
    reveal_strlit("skip");
    assert("("@[0] == '(' && ")"@[0] == ')');
    assert("("@ != ")"@);
    assert("run"@.len() == 3 && "fail"@.len() == 4 && "skip"@.len() == 4);
    assert("fail"@[0] == 'f' && "skip"@[0] == 's');
    assert("("@.len() == 1 && ")"@.len() == 1);
    assert("run"@ != "fail"@ && "run"@ != "skip"@ && "fail"@ != "skip"@);
    assert(forall|k: StepKind| #[trigger] kind_of_token(kind_token(k)) == Some(k)) by {
        assert(kind_of_token(kind_token(StepKind::Run)) == Some(StepKind::Run));
        assert(kind_of_token(kind_token(StepKind::Fail)) == Some(StepKind::Fail));
        assert(kind_of_token(kind_token(StepKind::Skip)) == Some(StepKind::Skip));
    }
    assert(forall|k: StepKind| #[trigger] kind_token(k) != "("@ && kind_token(k) != ")"@) by {
        assert(kind_token(StepKind::Run) != "("@ && kind_token(StepKind::Run) != ")"@);
        assert(kind_token(StepKind::Fail) != "("@ && kind_token(StepKind::Fail) != ")"@);
        assert(kind_token(StepKind::Skip) != "("@ && kind_token(StepKind::Skip) != ")"@);
    }
}

/// A parsed command spans at least its four fixed tokens and ends within
/// the input.
pub proof fn lemma_parse_cmd_bounds(toks: Seq<Seq<char>>, i: int)
    ensures
        match parse_cmd_at(toks, i) {
            Some(p) => i + 4 <= p.1 <= toks.len(),
            None => true,
        },
    decreases toks.len() - i, 0int,
{
    if 0 <= i && i + 3 <= toks.len() {
        lemma_parse_cmds_bounds(toks, i + 3);
    }
}

/// A parsed command list ends past its starting position and within the
/// input.
pub proof fn lemma_parse_cmds_bounds(toks: Seq<Seq<char>>, i: int)
    ensures
        match parse_cmds_at(toks, i) {
            Some(q) => i + 1 <= q.1 <= toks.len(),
            None => true,
        },
    decreases toks.len() - i, 1int,
{
    if 0 <= i && i < toks.len() && toks[i] != ")"@ {
        lemma_parse_cmd_bounds(toks, i);
        match parse_cmd_at(toks, i) {
            None => {},
            Some(p) => {
                lemma_parse_cmds_bounds(toks, p.1);
            },
        }
    }
}

/// Parsing the serialization of one command consumes exactly its tokens
/// and yields the command back, whatever follows.
pub proof fn lemma_parse_ser_cmd(toks: Seq<Seq<char>>, i: int, g: GCmd)
    requires
        0 <= i,
        i + ser_cmd(g).len() <= toks.len(),
        toks.subrange(i, i + ser_cmd(g).len()) == ser_cmd(g),
    ensures
        parse_cmd_at(toks, i) == Some((g, i + ser_cmd(g).len())),
    decreases g,
{
    lemma_tokens_distinct();
    let mid = ser_cmds(g.children);
    let n = mid.len() as int;
    assert(ser_cmd(g).len() == n + 4);
    assert(toks[i] == ser_cmd(g)[0]);
    assert(toks[i + 1] == ser_cmd(g)[1]);
    assert(toks[i + 2] == ser_cmd(g)[2]);
    assert(ser_cmd(g)[0] == "("@ && ser_cmd(g)[1] == kind_token(g.kind) && ser_cmd(g)[2]
        == g.label);
    assert forall|j: int| 0 <= j < n implies toks.subrange(i + 3, i + 3 + n)[j] == mid[j] by {
        assert(toks[i + 3 + j] == toks.subrange(i, i + (n + 4))[3 + j]);
        assert(ser_cmd(g)[3 + j] == mid[j]);
    }
    assert(toks.subrange(i + 3, i + 3 + n) =~= mid);
    assert(toks[i + 3 + n] == ser_cmd(g)[3 + n]);
    assert(ser_cmd(g)[3 + n] == ")"@);
    lemma_parse_ser_cmds(toks, i + 3, g.children);
}

/// Parsing a serialized command list followed by a closing mark yields
/// exactly that list and ends just past the mark.
pub proof fn lemma_parse_ser_cmds(toks: Seq<Seq<char>>, i: int, gs: Seq<GCmd>)
    requires
        0 <= i,
        i + ser_cmds(gs).len() + 1 <= toks.len(),
        toks.subrange(i, i + ser_cmds(gs).len()) == ser_cmds(gs),
        toks[i + ser_cmds(gs).len()] == ")"@,
    ensures
        parse_cmds_at(toks, i) == Some((gs, i + ser_cmds(gs).len() + 1)),
    decreases gs,
{
    lemma_tokens_distinct();
    let n = ser_cmds(gs).len() as int;
    if gs.len() == 0 {
        assert(toks[i] == ")"@);
        assert(gs =~= Seq::<GCmd>::empty());
    } else {
        let g0 = gs.first();
        let rest = gs.drop_first();
        let l0 = ser_cmd(g0).len() as int;
        let ln = ser_cmds(rest).len() as int;
        assert(n == l0 + ln);
        assert(toks.subrange(i, i + l0) =~= ser_cmd(g0));
        assert(toks[i] == ser_cmd(g0)[0]);
        assert(ser_cmd(g0)[0] == "("@);
        lemma_parse_ser_cmd(toks, i, g0);
        assert(l0 >= 4);
        assert forall|j: int| 0 <= j < ln implies toks.subrange(i + l0, i + l0 + ln)[j]
            == ser_cmds(rest)[j] by {
            assert(toks[i + l0 + j] == toks.subrange(i, i + n)[l0 + j]);
            assert(ser_cmds(gs)[l0 + j] == ser_cmds(rest)[j]);
        }
        assert(toks.subrange(i + l0, i + l0 + ln) =~= ser_cmds(rest));
        assert(toks[i + l0 + ln] == ")"@);
        lemma_parse_ser_cmds(toks, i + l0, rest);
        assert(seq![g0] + rest =~= gs);
    }
}

/// The number of nodes in a command view; the measure for recursion over
/// commands held in vectors.
pub open spec fn gsize(g: GCmd) -> nat
    decreases g,
{
    1 + gsize_list(g.children)
}

/// The number of nodes in a list of command views.
pub open spec fn gsize_list(gs: Seq<GCmd>) -> nat
    decreases gs,
{
    if gs.len() == 0 {
        0
    } else {
        gsize(gs.first()) + gsize_list(gs.drop_first())
    }
}

proof fn lemma_gsize_member(gs: Seq<GCmd>, i: int)
    requires
        0 <= i < gs.len(),
    ensures
        gsize(gs[i]) <= gsize_list(gs),
    decreases i,
{
    if i == 0 {
        assert(gs[0] == gs.first());
    } else {
        lemma_gsize_member(gs.drop_first(), i - 1);
        assert(gs.drop_first()[i - 1] == gs[i]);
    }
}

proof fn lemma_ser_cmds_snoc(gs: Seq<GCmd>, g: GCmd)
    ensures
        ser_cmds(gs.push(g)) == ser_cmds(gs) + ser_cmd(g),
    decreases gs,
{
    if gs.len() == 0 {
        assert(gs.push(g).first() == g);
        assert(gs.push(g).drop_first() =~= Seq::<GCmd>::empty());
        assert(ser_cmd(g) + ser_cmds(Seq::<GCmd>::empty()) =~= ser_cmd(g));
        assert(ser_cmds(Seq::<GCmd>::empty()) + ser_cmd(g) =~= ser_cmd(g));
    } else {
        lemma_ser_cmds_snoc(gs.drop_first(), g);
        assert(gs.push(g).first() == gs.first());
        assert(gs.push(g).drop_first() =~= gs.drop_first().push(g));
        assert(ser_cmd(gs.first()) + (ser_cmds(gs.drop_first()) + ser_cmd(g)) =~= (ser_cmd(
            gs.first(),
        ) + ser_cmds(gs.drop_first())) + ser_cmd(g));
    }
}

/// Serializes one command into its tokens.
#[verifier::loop_isolation(false)]
fn args_of_cmd(c: ScriptCmd) -> (r: Vec<String>)
    ensures
        views(r@) == ser_cmd(c@),
    decreases gsize(c@),
{
    let ghost g = c@;
    let ScriptCmd { label, kind, children } = c;
    let mut r: Vec<String> = Vec::new();
    r.push("(".to_owned());
    match kind {
        StepKind::Run => r.push("run".to_owned()),
        StepKind::Fail => r.push("fail".to_owned()),
        StepKind::Skip => r.push("skip".to_owned()),
    }
    r.push(label);
    let ghost header = seq!["("@, kind_token(g.kind), g.label];
    let ghost all: Seq<GCmd> = g.children;
    let mut rest = children;
    proof {
        assert(views(r@) =~= header);
        lemma_gview_list(rest@);
        assert(views(rest@) =~= all);
        assert(all.subrange(0, 0) =~= Seq::<GCmd>::empty());
        assert(views(r@) =~= header + ser_cmds(all.subrange(0, 0)));
        assert(all.subrange(all.len() - rest@.len(), all.len() as int) =~= all);
    }
    while rest.len() != 0
        invariant
            rest@.len() <= all.len(),
            views(rest@) == all.subrange(all.len() - rest@.len(), all.len() as int),
            views(r@) == header + ser_cmds(all.subrange(0, all.len() - rest@.len())),
        decreases rest.len(),
    {
        let ghost k = all.len() - rest@.len();
        let ghost r_before = r@;
        let ghost rest_before = rest@;
        let c0 = rest.remove(0);
        proof {
            assert(c0 == rest_before[0]);
            assert(views(rest_before)[0] == all[k]);
            assert(c0@ == all[k]);
            assert forall|x: int| 0 <= x < rest@.len() implies views(rest@)[x] == all.subrange(
                k + 1,
                all.len() as int,
            )[x] by {
                assert(rest@[x] == rest_before[x + 1]);
                assert(views(rest_before)[x + 1] == all.subrange(k, all.len() as int)[x + 1]);
            }
            assert(views(rest@) =~= all.subrange(k + 1, all.len() as int));
            lemma_gsize_member(all, k);
            assert(gsize(c0@) <= gsize_list(all));
            assert(gsize(c@) == 1 + gsize_list(all));
        }
        let mut t = args_of_cmd(c0);
        let ghost t_view = views(t@);
        r.append(&mut t);
        proof {
            assert(views(r@) =~= views(r_before) + t_view);
            assert(all.subrange(0, k + 1) =~= all.subrange(0, k).push(all[k]));
            lemma_ser_cmds_snoc(all.subrange(0, k), all[k]);
            assert((header + ser_cmds(all.subrange(0, k))) + ser_cmd(all[k]) =~= header
                + ser_cmds(all.subrange(0, k + 1)));
        }
    }
    proof {
        assert(all.subrange(0, all.len() as int) =~= all);
    }
    let ghost r_mid = r@;
    r.push(")".to_owned());
    proof {
        assert(views(r@) =~= views(r_mid).push(")"@));
        assert((header + ser_cmds(all)).push(")"@) =~= header + ser_cmds(all) + seq![")"@]);
    }
    r
}

/// Parses one command from `toks` at position `i`, mirroring
/// `parse_cmd_at` exactly.
#[verifier::loop_isolation(false)]
fn parse_args_at(toks: &Vec<String>, i: usize) -> (r: Option<(ScriptCmd, usize)>)
    requires
        i <= toks@.len(),
    ensures
        match r {
            Some(p) => parse_cmd_at(views(toks@), i as int) == Some((p.0@, p.1 as int)) && i
                < p.1 <= toks@.len(),
            None => parse_cmd_at(views(toks@), i as int) is None,
        },
    decreases toks@.len() - i,
{
    let ghost vt = views(toks@);
    if toks.len() - i < 3 {
        return None;
    }
    let tok_open = "(".to_owned();
    let tok_close = ")".to_owned();
    let tok_run = "run".to_owned();
    let tok_fail = "fail".to_owned();
    let tok_skip = "skip".to_owned();
    if !(toks[i] == tok_open) {
        return None;
    }
    let kind = if toks[i + 1] == tok_run {
        StepKind::Run
    } else if toks[i + 1] == tok_fail {
        StepKind::Fail
    } else if toks[i + 1] == tok_skip {
        StepKind::Skip
    } else {
        return None;
    };
    proof {
        assert(kind_of_token(vt[i as int + 1]) == Some(kind));
    }
    let label = toks[i + 2].clone();
    let mut kids: Vec<ScriptCmd> = Vec::new();
    let mut j = i + 3;
    while j < toks.len() && !(toks[j] == tok_close)
        invariant
            i + 3 <= j <= toks@.len(),
            match parse_cmds_at(vt, j as int) {
                None => parse_cmds_at(vt, i as int + 3) is None,
                Some(q) => parse_cmds_at(vt, i as int + 3) == Some(
                    (views(kids@) + q.0, q.1),
                ),
            },
        decreases toks@.len() - j,
    {
        let parsed = parse_args_at(toks, j);
        match parsed {
            None => {
                proof {
                    assert(parse_cmds_at(vt, j as int) is None);
                }
                return None;
            },
            Some(p) => {
                let ghost kids_before = views(kids@);
                let ghost jprev = j as int;
                let ghost pv = p.0@;
                let jn = p.1;
                kids.push(p.0);
                j = jn;
                proof {
                    assert(views(kids@) =~= kids_before.push(pv));
                    let inner = parse_cmds_at(vt, jn as int);
                    match inner {
                        None => {
                            assert(parse_cmds_at(vt, jprev) is None);
                        },
                        Some(q2) => {
                            assert(parse_cmds_at(vt, jprev) == Some(
                                (seq![pv] + q2.0, q2.1),
                            ));
                            assert(kids_before.push(pv) + q2.0 =~= kids_before + (seq![pv]
                                + q2.0));
                        },
                    }
                }
            },
        }
    }
    if j == toks.len() {
        proof {
            assert(parse_cmds_at(vt, j as int) is None);
        }
        return None;
    }
    let cmd = ScriptCmd { label, kind, children: kids };
    proof {
        assert(parse_cmds_at(vt, j as int) == Some((Seq::<GCmd>::empty(), j as int + 1)));
        assert(views(kids@) + Seq::<GCmd>::empty() =~= views(kids@));
        lemma_gview_list(kids@);
        assert(cmd@.children =~= views(kids@));
        assert(parse_cmd_at(vt, i as int) == Some((cmd@, j as int + 1)));
    }
    Some((cmd, j + 1))
}

impl Arguable for ScriptCmd {
    open spec fn ser(v: GCmd) -> Seq<Seq<char>> {
        ser_cmd(v)
    }

    open spec fn parse(args: Seq<Seq<char>>) -> Option<GCmd> {
        match parse_cmd_at(args, 0) {
            None => None,
            Some(p) => if p.1 == args.len() {
                Some(p.0)
            } else {
                None
            },
        }
    }

    fn to_args(self) -> (r: Vec<String>) {
        args_of_cmd(self)
    }

    fn from_args(args: Vec<String>) -> (r: Result<ScriptCmd, EngineError>) {
        match parse_args_at(&args, 0) {
            Some(p) => {
                if p.1 == args.len() {
                    Ok(p.0)
                } else {
                    Err(
                        EngineError::Serialization(
                            "tokens left over after one command".to_owned(),
                        ),
                    )
                }
            },
            None => Err(EngineError::Serialization("malformed command tokens".to_owned())),
        }
    }
}

/// Round-trip law: parsing the serialization of any command view yields
/// exactly that view, so a round-tripped command executes identically to
/// the command it came from.
pub proof fn lemma_round_trip(g: GCmd)
    ensures
        <ScriptCmd as Arguable>::parse(<ScriptCmd as Arguable>::ser(g)) == Some(g),
{
    let toks = ser_cmd(g);
    assert(toks.subrange(0, toks.len() as int) =~= toks);
    lemma_parse_ser_cmd(toks, 0, g);
}

impl Process<Log> for ScriptCmd {
    open spec fn step(v: GCmd, s: Seq<Seq<char>>) -> Option<(Seq<Seq<char>>, Seq<GCmd>)> {
        match v.kind {
            StepKind::Run => Some((s.push(v.label), v.children)),
            StepKind::Fail => None,
            StepKind::Skip => Some((s, v.children)),
        }
    }

    fn process(self, s: Log) -> (r: Result<(Log, Vec<ScriptCmd>), EngineError>) {
        let ghost g = self@;
        let ScriptCmd { label, kind, children } = self;
        match kind {
            StepKind::Run => {
                let Log { mut entries } = s;
                let ghost s0 = views(entries@);
                entries.push(label);
                let out = Log { entries };
                proof {
                    assert(out@ =~= s0.push(g.label));
                    lemma_gview_list(children@);
                    assert(views(children@) =~= g.children);
                }
                Ok((out, children))
            },
            StepKind::Fail => Err(
                EngineError::Execution("the step reported failure".to_owned()),
            ),
            StepKind::Skip => {
                proof {
                    lemma_gview_list(children@);
                    assert(views(children@) =~= g.children);
                }
                Ok((s, children))
            },
        }
    }
}

proof fn lemma_gsize_list_push(gs: Seq<GCmd>, g: GCmd)
    ensures
        gsize_list(gs.push(g)) == gsize_list(gs) + gsize(g),
    decreases gs,
{
    if gs.len() == 0 {
        assert(gs.push(g).first() == g);
        assert(gs.push(g).drop_first() =~= gs);
        assert(gsize_list(gs) == 0);
    } else {
        lemma_gsize_list_push(gs.drop_first(), g);
        assert(gs.push(g).first() == gs.first());
        assert(gs.push(g).drop_first() =~= gs.drop_first().push(g));
    }
}

proof fn lemma_gsize_list_reverse(gs: Seq<GCmd>)
    ensures
        gsize_list(gs.reverse()) == gsize_list(gs),
    decreases gs,
{
    if gs.len() != 0 {
        lemma_gsize_list_reverse(gs.drop_first());
        assert(gs.reverse() =~= gs.drop_first().reverse().push(gs.first()));
        lemma_gsize_list_push(gs.drop_first().reverse(), gs.first());
    }
}

proof fn lemma_gsize_list_concat(a: Seq<GCmd>, b: Seq<GCmd>)
    ensures
        gsize_list(a + b) == gsize_list(a) + gsize_list(b),
    decreases a,
{
    if a.len() == 0 {
        assert(a + b =~= b);
    } else {
        lemma_gsize_list_concat(a.drop_first(), b);
        assert((a + b).len() != 0);
        assert((a + b).first() == a.first());
        assert((a + b).drop_first() =~= a.drop_first() + b);
    }
}

/// A stack of script commands always resolves: every step removes one
/// node from the total count of nodes pending, so fuel beyond that
/// count drains the queue or meets a failing step.
pub proof fn lemma_script_run_resolves(s: Seq<Seq<char>>, stack: Seq<GCmd>, fuel: nat)
    requires
        fuel >= gsize_list(stack) + 1,
    ensures
        resolves_within::<Log, ScriptCmd>(s, stack, fuel),
    decreases fuel,
{
    if stack.len() != 0 {
        let g = stack.last();
        lemma_round_trip(g);
        match <ScriptCmd as Process<Log>>::step(g, s) {
            None => {},
            Some(p) => {
                assert(stack =~= stack.drop_last().push(g));
                lemma_gsize_list_push(stack.drop_last(), g);
                lemma_gsize_list_reverse(g.children);
                lemma_gsize_list_concat(stack.drop_last(), g.children.reverse());
                assert(gsize_list(stack.drop_last() + g.children.reverse()) + 1 == gsize_list(
                    stack,
                ));
                lemma_script_run_resolves(
                    p.0,
                    stack.drop_last() + p.1.reverse(),
                    (fuel - 1) as nat,
                );
                assert(run_model::<Log, ScriptCmd>(s, stack, fuel) == run_model::<
                    Log,
                    ScriptCmd,
                >(p.0, stack.drop_last() + p.1.reverse(), (fuel - 1) as nat));
            },
        }
    }
}

/// Run one script command against a log. A script command's expansion
/// is the finite tree of its children, so the run always resolves and
/// no bound is asked of the caller; the outcome is exactly what the
/// engine model computes.
pub fn run_script(log: Log, cmd: ScriptCmd) -> (r: Result<Log, EngineError>)
    ensures
        exists|fuel: nat|
            run_model::<Log, ScriptCmd>(log@, seq![cmd@], fuel) == outcome_of::<Log>(r),
{
    proof {
        assert(seq![cmd@].first() == cmd@);
        assert(gsize_list(seq![cmd@].drop_first()) == 0);
        assert(gsize_list(seq![cmd@]) == gsize(cmd@));
        lemma_script_run_resolves(log@, seq![cmd@], gsize(cmd@) + 1);
        assert(resolves_within::<Log, ScriptCmd>(log@, seq![cmd@], gsize(cmd@) + 1));
    }
    run(log, cmd)
}

} // verus!
