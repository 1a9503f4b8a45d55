//! The daemon state: either a live block collection with its display
//! settings, or a degraded state that serves only the configuration error.
//! All four operations — update selected blocks, update all, render the bar,
//! restart from configuration — are functions of this state and of the plain
//! values (configuration text, command outcomes) the surrounding process
//! hands in.

use vstd::prelude::*;
use vstd::string::*;

use crate::block::{
    block_draw, run_line, run_model, set_line, set_model, Block, BlockV, CmdOutcome, OutcomeV,
};
use crate::config::{
    config_model_of, def_names_distinct, error_report, parse_config, BlockDefV, ConfigDoc,
    ConfigDocV, ParseError, ParseErrorV,
};
use crate::text::split_selector;
use crate::text::split_selector_str;
use crate::text::trim_ws;

verus! {

/// The daemon's mode: configuration parsed and blocks live, or degraded,
/// serving only the parse error until the next restart.
enum Status {
    ParseOk { delim: String, prefix: String, suffix: String, blocks: Vec<Block> },
    ParseError(ParseError),
}

/// The mathematical value of the daemon's mode.
pub ghost enum StatusV {
    Ready { delim: Seq<char>, prefix: Seq<char>, suffix: Seq<char>, blocks: Seq<BlockV> },
    Degraded(ParseErrorV),
}

/// The daemon state: its mode and the configuration path it restarts from.
pub struct Bard {
    status: Status,
    config_path: String,
}

/// The mathematical value of a [`Bard`].
pub ghost struct BardV {
    pub status: StatusV,
    pub config_path: Seq<char>,
}

impl View for Bard {
    type V = BardV;

    closed spec fn view(&self) -> BardV {
        BardV {
            status: match self.status {
                Status::ParseOk { delim, prefix, suffix, blocks } => StatusV::Ready {
                    delim: delim@,
                    prefix: prefix@,
                    suffix: suffix@,
                    blocks: blocks.deep_view(),
                },
                Status::ParseError(e) => StatusV::Degraded(e@),
            },
            config_path: self.config_path@,
        }
    }
}

/// The blocks a sequence of definitions builds, in order, or the error of
/// the first definition without a string name or without a `cmd`.
pub open spec fn build_blocks(defs: Seq<BlockDefV>) -> Result<Seq<BlockV>, ParseErrorV>
    decreases defs.len(),
{
    if defs.len() == 0 {
        Ok(Seq::empty())
    } else {
        match defs[0].name {
            None => Err(ParseErrorV::BadStruct),
            Some(name) => match defs[0].cmd {
                None => Err(ParseErrorV::MissingField { block: name, field: "cmd"@ }),
                Some(cmd) => match build_blocks(defs.drop_first()) {
                    Ok(rest) => Ok(
                        seq![
                            BlockV {
                                name,
                                cmd,
                                prefix: defs[0].prefix,
                                last_output: Seq::empty(),
                            },
                        ] + rest,
                    ),
                    Err(e) => Err(e),
                },
            },
        }
    }
}

/// The option's value, or the default where it is absent.
pub open spec fn default_or(o: Option<Seq<char>>, d: Seq<char>) -> Seq<char> {
    match o {
        Some(s) => s,
        None => d,
    }
}

/// The mode a configuration document builds: degraded where the document has
/// no `blocks` hash or a definition is bad, else ready, with the global
/// settings defaulting to `" | "`, `" "` and `" "`.
pub open spec fn spec_build(d: ConfigDocV) -> StatusV {
    match d.blocks {
        None => StatusV::Degraded(ParseErrorV::BadStruct),
        Some(defs) => match build_blocks(defs) {
            Err(e) => StatusV::Degraded(e),
            Ok(bs) => StatusV::Ready {
                delim: default_or(d.delim, " | "@),
                prefix: default_or(d.prefix, " "@),
                suffix: default_or(d.suffix, " "@),
                blocks: bs,
            },
        },
    }
}

/// With well-formed block definitions the build succeeds and yields exactly
/// one block per definition, in order, each carrying its configured name,
/// command and prefix, with an empty cached output.
pub proof fn lemma_init_blocks(defs: Seq<BlockDefV>)
    requires
        forall|j: int|
            0 <= j < defs.len() ==> (#[trigger] defs[j]).name is Some && defs[j].cmd is Some,
    ensures
        match build_blocks(defs) {
            Ok(bs) => bs.len() == defs.len() && forall|j: int|
                0 <= j < defs.len() ==> #[trigger] bs[j] == (BlockV {
                    name: defs[j].name.unwrap(),
                    cmd: defs[j].cmd.unwrap(),
                    prefix: defs[j].prefix,
                    last_output: Seq::empty(),
                }),
            Err(_) => false,
        },
    decreases defs.len(),
{
    if defs.len() == 0 {
    } else {
        assert(defs[0].name is Some && defs[0].cmd is Some);
        lemma_init_blocks(defs.drop_first());
    }
}

/// Every block a build produces starts with an empty cached output.
proof fn lemma_build_blocks_fresh(defs: Seq<BlockDefV>)
    ensures
        match build_blocks(defs) {
            Ok(bs) => forall|j: int|
                0 <= j < bs.len() ==> (#[trigger] bs[j]).last_output.len() == 0,
            Err(_) => true,
        },
    decreases defs.len(),
{
    if defs.len() == 0 {
    } else {
        lemma_build_blocks_fresh(defs.drop_first());
    }
}

/// Pairwise-distinct block names: the uniqueness invariant of the active
/// collection, which name lookup rests on.
pub open spec fn names_distinct(blocks: Seq<BlockV>) -> bool {
    forall|i: int, j: int|
        0 <= i < j < blocks.len() ==> (#[trigger] blocks[i]).name != (#[trigger] blocks[j]).name
}

proof fn lemma_build_blocks_valid(defs: Seq<BlockDefV>)
    ensures
        build_blocks(defs) is Ok ==> forall|j: int|
            0 <= j < defs.len() ==> (#[trigger] defs[j]).name is Some && defs[j].cmd is Some,
    decreases defs.len(),
{
    if defs.len() == 0 {
    } else {
        lemma_build_blocks_valid(defs.drop_first());
        if build_blocks(defs) is Ok {
            assert forall|j: int| 0 <= j < defs.len() implies (#[trigger] defs[j]).name is Some
                && defs[j].cmd is Some by {
                if j > 0 {
                    assert(defs.drop_first()[j - 1] == defs[j]);
                }
            }
        }
    }
}

/// A collection built from definitions with pairwise-distinct names keeps
/// its block names pairwise distinct.
pub proof fn lemma_build_blocks_distinct(defs: Seq<BlockDefV>)
    requires
        def_names_distinct(defs),
    ensures
        match build_blocks(defs) {
            Ok(bs) => names_distinct(bs),
            Err(_) => true,
        },
{
    match build_blocks(defs) {
        Ok(bs) => {
            lemma_build_blocks_valid(defs);
            lemma_init_blocks(defs);
            assert forall|i: int, j: int| 0 <= i < j < bs.len() implies (#[trigger] bs[i]).name
                != (#[trigger] bs[j]).name by {
                assert(bs[i].name == defs[i].name.unwrap());
                assert(bs[j].name == defs[j].name.unwrap());
            }
        },
        Err(_) => {},
    }
}

/// The index of the first block with this name, if any.
pub open spec fn find_block(blocks: Seq<BlockV>, name: Seq<char>) -> Option<int>
    decreases blocks.len(),
{
    if blocks.len() == 0 {
        None
    } else if blocks[0].name == name {
        Some(0)
    } else {
        match find_block(blocks.drop_first(), name) {
            Some(i) => Some(i + 1),
            None => None,
        }
    }
}

proof fn lemma_find_block_at(blocks: Seq<BlockV>, name: Seq<char>, i: int)
    requires
        0 <= i <= blocks.len(),
        forall|j: int| 0 <= j < i ==> (#[trigger] blocks[j]).name != name,
        i < blocks.len() ==> blocks[i].name == name,
    ensures
        find_block(blocks, name) == (if i < blocks.len() {
            Some(i)
        } else {
            None::<int>
        }),
    decreases i,
{
    if i == 0 {
    } else {
        assert(blocks[0].name != name);
        lemma_find_block_at(blocks.drop_first(), name, i - 1);
    }
}

proof fn lemma_find_block_in_range(blocks: Seq<BlockV>, name: Seq<char>)
    ensures
        match find_block(blocks, name) {
            Some(i) => 0 <= i < blocks.len() && blocks[i].name == name,
            None => true,
        },
    decreases blocks.len(),
{
    if blocks.len() == 0 {
    } else {
        lemma_find_block_in_range(blocks.drop_first(), name);
    }
}

/// Two block sequences of the same shape: the same names and commands in
/// the same places (their cached outputs may differ).
pub open spec fn same_shape(b1: Seq<BlockV>, b2: Seq<BlockV>) -> bool {
    b1.len() == b2.len() && (forall|j: int|
        0 <= j < b1.len() ==> ((#[trigger] b1[j]).name == b2[j].name && b1[j].cmd == b2[j].cmd))
}

proof fn lemma_same_shape_drop(b1: Seq<BlockV>, b2: Seq<BlockV>)
    requires
        same_shape(b1, b2),
        b1.len() > 0,
    ensures
        same_shape(b1.drop_first(), b2.drop_first()),
{
    assert forall|j: int| 0 <= j < b1.drop_first().len() implies ((#[trigger] b1.drop_first()[j]).name
        == b2.drop_first()[j].name && b1.drop_first()[j].cmd == b2.drop_first()[j].cmd) by {
        assert(b1.drop_first()[j] == b1[j + 1]);
        assert(b2.drop_first()[j] == b2[j + 1]);
    }
}

proof fn lemma_find_block_same(b1: Seq<BlockV>, b2: Seq<BlockV>, name: Seq<char>)
    requires
        same_shape(b1, b2),
    ensures
        find_block(b1, name) == find_block(b2, name),
    decreases b1.len(),
{
    if b1.len() == 0 {
    } else {
        assert(b1[0].name == b2[0].name);
        lemma_same_shape_drop(b1, b2);
        lemma_find_block_same(b1.drop_first(), b2.drop_first(), name);
    }
}

/// The command one selector asks to run: the found block's command for a
/// bare known name, nothing for a literal-text selector or an unknown name.
pub open spec fn sel_cmd(blocks: Seq<BlockV>, sel: Seq<char>) -> Seq<Seq<char>> {
    let (name, text) = split_selector(sel);
    match find_block(blocks, name) {
        Some(i) => if text is None {
            seq![blocks[i].cmd]
        } else {
            Seq::empty()
        },
        None => Seq::empty(),
    }
}

/// The commands `update` runs for these selectors, in consumption order.
pub open spec fn spec_commands(blocks: Seq<BlockV>, sels: Seq<Seq<char>>) -> Seq<Seq<char>>
    decreases sels.len(),
{
    if sels.len() == 0 {
        Seq::empty()
    } else {
        sel_cmd(blocks, sels[0]) + spec_commands(blocks, sels.drop_first())
    }
}

/// The commands `update` on this state runs for these selectors: none while
/// the state is degraded.
pub open spec fn spec_bard_commands(v: BardV, sels: Seq<Seq<char>>) -> Seq<Seq<char>> {
    match v.status {
        StatusV::Ready { blocks, .. } => spec_commands(blocks, sels),
        StatusV::Degraded(_) => Seq::empty(),
    }
}

/// The commands of the blocks, in collection order.
pub open spec fn cmds_of(blocks: Seq<BlockV>) -> Seq<Seq<char>> {
    blocks.map_values(|b: BlockV| b.cmd)
}

/// The commands `update_all` on this state runs: one per block, in
/// collection order; none while the state is degraded.
pub open spec fn spec_all_commands(v: BardV) -> Seq<Seq<char>> {
    match v.status {
        StatusV::Ready { blocks, .. } => cmds_of(blocks),
        StatusV::Degraded(_) => Seq::empty(),
    }
}

/// The report line of a selector that names no block.
pub open spec fn not_found_line(name: Seq<char>) -> Seq<char> {
    "["@ + name + "]: block not found\n"@
}

/// What one `update` call does: the blocks afterwards, the accumulated
/// report, and how many command outcomes it consumed.
pub ghost struct UpdOut {
    pub blocks: Seq<BlockV>,
    pub report: Seq<char>,
    pub used: int,
}

/// The meaning of `update`: selectors applied in order. A bare known name
/// runs the block with the next outcome, `name:text` sets the block's
/// output, an unknown name only reports; each step appends its report line
/// and the rest of the batch goes on regardless.
pub open spec fn spec_update(blocks: Seq<BlockV>, sels: Seq<Seq<char>>, outs: Seq<OutcomeV>) -> UpdOut
    decreases sels.len(),
{
    if sels.len() == 0 {
        UpdOut { blocks, report: Seq::empty(), used: 0 }
    } else {
        let (name, text) = split_selector(sels[0]);
        match find_block(blocks, name) {
            None => {
                let rest = spec_update(blocks, sels.drop_first(), outs);
                UpdOut {
                    blocks: rest.blocks,
                    report: not_found_line(name) + rest.report,
                    used: rest.used,
                }
            },
            Some(i) => match text {
                Some(t) => {
                    let rest = spec_update(
                        blocks.update(i, set_model(blocks[i], t)),
                        sels.drop_first(),
                        outs,
                    );
                    UpdOut {
                        blocks: rest.blocks,
                        report: set_line(blocks[i].name, t) + rest.report,
                        used: rest.used,
                    }
                },
                None => {
                    let rest = spec_update(
                        blocks.update(i, run_model(blocks[i], outs[0])),
                        sels.drop_first(),
                        outs.drop_first(),
                    );
                    UpdOut {
                        blocks: rest.blocks,
                        report: run_line(blocks[i].name, outs[0]) + rest.report,
                        used: rest.used + 1,
                    }
                },
            },
        }
    }
}

fn not_found_report(name: &String) -> (r: String)
    ensures
        r@ == not_found_line(name@),
{
    let mut r = String::new();
    r.append("[");
    r.append(name.as_str());
    r.append("]: block not found\n");
    proof {
        assert(r@ =~= not_found_line(name@));
    }
    r
}

fn find_block_idx(blocks: &Vec<Block>, name: &String) -> (r: Option<usize>)
    ensures
        match r {
            Some(i) => i < blocks@.len() && find_block(blocks.deep_view(), name@) == Some(
                i as int,
            ),
            None => find_block(blocks.deep_view(), name@) == None::<int>,
        },
{
    let mut i: usize = 0;
    while i < blocks.len()
        invariant
            i <= blocks@.len(),
            forall|j: int| 0 <= j < i ==> (#[trigger] blocks.deep_view()[j]).name != name@,
        decreases blocks@.len() - i,
    {
        if blocks[i].name == *name {
            proof {
                lemma_find_block_at(blocks.deep_view(), name@, i as int);
            }
            return Some(i);
        }
        i = i + 1;
    }
    proof {
        lemma_find_block_at(blocks.deep_view(), name@, i as int);
    }
    None
}

/// The meaning of `update_all`: every block run once, in collection order,
/// with its own outcome; the report is one run line per block.
pub open spec fn spec_run_all(blocks: Seq<BlockV>, outs: Seq<OutcomeV>) -> (Seq<BlockV>, Seq<char>)
    decreases blocks.len(),
{
    if blocks.len() == 0 {
        (blocks, Seq::empty())
    } else {
        let rest = spec_run_all(blocks.drop_first(), outs.drop_first());
        (
            seq![run_model(blocks[0], outs[0])] + rest.0,
            run_line(blocks[0].name, outs[0]) + rest.1,
        )
    }
}

/// How many newlines a sequence holds.
pub open spec fn count_nl(s: Seq<char>) -> int
    decreases s.len(),
{
    if s.len() == 0 {
        0
    } else {
        (if s[0] == '\n' {
            1int
        } else {
            0int
        }) + count_nl(s.drop_first())
    }
}

proof fn lemma_count_nl_add(a: Seq<char>, b: Seq<char>)
    ensures
        count_nl(a + b) == count_nl(a) + count_nl(b),
    decreases a.len(),
{
    if a.len() == 0 {
        assert(a + b =~= b);
    } else {
        assert((a + b)[0] == a[0]);
        assert((a + b).drop_first() =~= a.drop_first() + b);
        lemma_count_nl_add(a.drop_first(), b);
    }
}

proof fn lemma_count_nl_none(s: Seq<char>)
    requires
        forall|j: int| 0 <= j < s.len() ==> s[j] != '\n',
    ensures
        count_nl(s) == 0,
    decreases s.len(),
{
    if s.len() == 0 {
    } else {
        assert forall|j: int| 0 <= j < s.drop_first().len() implies s.drop_first()[j] != '\n' by {
            assert(s.drop_first()[j] == s[j + 1]);
        }
        lemma_count_nl_none(s.drop_first());
    }
}

proof fn lemma_run_line_count(name: Seq<char>, o: OutcomeV)
    requires
        count_nl(name) == 0,
        count_nl(o.status) == 0,
        count_nl(trim_ws(o.stderr)) == 0,
    ensures
        count_nl(run_line(name, o)) == 1,
{
    reveal_strlit("[");
    reveal_strlit("]: ");
    reveal_strlit(", stderr: ");
    reveal_strlit("\n");
    lemma_count_nl_none("["@);
    lemma_count_nl_none("]: "@);
    lemma_count_nl_none(", stderr: "@);
    assert("\n"@.drop_first() =~= Seq::<char>::empty());
    assert(count_nl(Seq::<char>::empty()) == 0);
    assert(count_nl("\n"@) == 1);
    let head = "["@ + name + "]: "@ + o.status;
    lemma_count_nl_add("["@, name);
    lemma_count_nl_add("["@ + name, "]: "@);
    lemma_count_nl_add("["@ + name + "]: "@, o.status);
    if !o.success && o.stderr.len() > 0 {
        lemma_count_nl_add(head, ", stderr: "@);
        lemma_count_nl_add(head + ", stderr: "@, trim_ws(o.stderr));
        lemma_count_nl_add(head + ", stderr: "@ + trim_ws(o.stderr), "\n"@);
    } else {
        lemma_count_nl_add(head, "\n"@);
    }
}

/// `update_all` over K blocks reports one line per block, in collection
/// order, whatever each command's outcome: the accumulated report is the
/// blocks' run lines concatenated in order, and — when the names, status
/// texts and trimmed error excerpts hold no newline of their own — it
/// carries exactly K newline terminators.
pub proof fn lemma_update_all_report_lines(blocks: Seq<BlockV>, outs: Seq<OutcomeV>)
    requires
        blocks.len() == outs.len(),
        forall|j: int| 0 <= j < blocks.len() ==> count_nl((#[trigger] blocks[j]).name) == 0,
        forall|j: int|
            0 <= j < outs.len() ==> count_nl((#[trigger] outs[j]).status) == 0 && count_nl(
                trim_ws(outs[j].stderr),
            ) == 0,
    ensures
        count_nl(spec_run_all(blocks, outs).1) == blocks.len(),
    decreases blocks.len(),
{
    if blocks.len() == 0 {
    } else {
        lemma_run_line_count(blocks[0].name, outs[0]);
        lemma_count_nl_add(
            run_line(blocks[0].name, outs[0]),
            spec_run_all(blocks.drop_first(), outs.drop_first()).1,
        );
        assert forall|j: int| 0 <= j < blocks.drop_first().len() implies count_nl(
            (#[trigger] blocks.drop_first()[j]).name,
        ) == 0 by {
            assert(blocks.drop_first()[j] == blocks[j + 1]);
        }
        assert forall|j: int| 0 <= j < outs.drop_first().len() implies count_nl(
            (#[trigger] outs.drop_first()[j]).status,
        ) == 0 && count_nl(trim_ws(outs.drop_first()[j].stderr)) == 0 by {
            assert(outs.drop_first()[j] == outs[j + 1]);
        }
        lemma_update_all_report_lines(blocks.drop_first(), outs.drop_first());
    }
}

/// The bar segments of the blocks, in order: one per block with a non-empty
/// cached output.
pub open spec fn segments(blocks: Seq<BlockV>) -> Seq<Seq<char>>
    decreases blocks.len(),
{
    if blocks.len() == 0 {
        Seq::empty()
    } else {
        match block_draw(blocks[0]) {
            Some(t) => seq![t] + segments(blocks.drop_first()),
            None => segments(blocks.drop_first()),
        }
    }
}

/// The segments joined by the delimiter, with no delimiter at either end.
pub open spec fn joined(segs: Seq<Seq<char>>, delim: Seq<char>) -> Seq<char>
    decreases segs.len(),
{
    if segs.len() == 0 {
        Seq::empty()
    } else if segs.len() == 1 {
        segs[0]
    } else {
        segs[0] + delim + joined(segs.drop_first(), delim)
    }
}

/// The rendered bar: the global prefix, the non-empty segments joined by
/// the delimiter — an elided block takes its delimiters with it — and the
/// global suffix.
pub open spec fn bar_text(
    delim: Seq<char>,
    prefix: Seq<char>,
    suffix: Seq<char>,
    blocks: Seq<BlockV>,
) -> Seq<char> {
    prefix + joined(segments(blocks), delim) + suffix
}

/// The meaning of `draw_bar`: the rendered bar of a ready state, the
/// parse-error report of a degraded one.
pub open spec fn spec_draw_bar(s: StatusV) -> Result<Seq<char>, Seq<char>> {
    match s {
        StatusV::Ready { delim, prefix, suffix, blocks } => Ok(
            bar_text(delim, prefix, suffix, blocks),
        ),
        StatusV::Degraded(e) => Err(error_report(e)),
    }
}

/// Rendering the bar is a pure read: it is a function of the state value
/// alone, so two renders with no intervening run, assignment or restart
/// yield identical text.
pub proof fn lemma_draw_bar_idempotent(
    s: StatusV,
    r1: Result<Seq<char>, Seq<char>>,
    r2: Result<Seq<char>, Seq<char>>,
)
    requires
        r1 == spec_draw_bar(s),
        r2 == spec_draw_bar(s),
    ensures
        r1 == r2,
{
}

proof fn lemma_segments_push(blocks: Seq<BlockV>, b: BlockV)
    ensures
        segments(blocks.push(b)) == (match block_draw(b) {
            Some(t) => segments(blocks) + seq![t],
            None => segments(blocks),
        }),
    decreases blocks.len(),
{
    let p = blocks.push(b);
    if blocks.len() == 0 {
        assert(p[0] == b);
        assert(p.drop_first() =~= Seq::<BlockV>::empty());
        assert(blocks =~= Seq::<BlockV>::empty());
        assert(segments(Seq::<BlockV>::empty()) =~= Seq::<Seq<char>>::empty());
        match block_draw(b) {
            Some(t) => {
                assert(seq![t] + Seq::<Seq<char>>::empty() =~= seq![t]);
                assert(segments(blocks) + seq![t] =~= seq![t]);
            },
            None => {},
        }
    } else {
        assert(p[0] == blocks[0]);
        assert(p.drop_first() =~= blocks.drop_first().push(b));
        lemma_segments_push(blocks.drop_first(), b);
        match (block_draw(blocks[0]), block_draw(b)) {
            (Some(t0), Some(t)) => {
                assert(seq![t0] + (segments(blocks.drop_first()) + seq![t]) =~= (seq![t0]
                    + segments(blocks.drop_first())) + seq![t]);
            },
            _ => {},
        }
    }
}

proof fn lemma_joined_push(segs: Seq<Seq<char>>, t: Seq<char>, delim: Seq<char>)
    ensures
        joined(segs.push(t), delim) == (if segs.len() == 0 {
            t
        } else {
            joined(segs, delim) + delim + t
        }),
    decreases segs.len(),
{
    let p = segs.push(t);
    if segs.len() == 0 {
        assert(p.len() == 1);
        assert(p[0] == t);
    } else if segs.len() == 1 {
        assert(p.len() == 2);
        assert(p[0] == segs[0]);
        assert(p.drop_first() =~= seq![t]);
        assert(joined(seq![t], delim) == t);
    } else {
        assert(p[0] == segs[0]);
        assert(p.drop_first() =~= segs.drop_first().push(t));
        lemma_joined_push(segs.drop_first(), t, delim);
        assert(segs[0] + delim + (joined(segs.drop_first(), delim) + delim + t) =~= (segs[0]
            + delim + joined(segs.drop_first(), delim)) + delim + t);
    }
}

impl Bard {
    /// The commands that `update` with these selectors will consume
    /// outcomes for, in consumption order: one per bare-name selector that
    /// names a known block.
    pub fn commands_for_update(&self, selectors: &Vec<String>) -> (r: Vec<String>)
        ensures
            r.deep_view() == spec_bard_commands(self@, selectors.deep_view()),
    {
        match &self.status {
            Status::ParseError(_) => {
                let r: Vec<String> = Vec::new();
                proof {
                    assert(r.deep_view() =~= Seq::<Seq<char>>::empty());
                }
                r
            },
            Status::ParseOk { blocks, .. } => {
                let ghost bv = blocks.deep_view();
                let ghost sels = selectors.deep_view();
                let mut cmds: Vec<String> = Vec::new();
                let mut i: usize = 0;
                proof {
                    assert(sels.skip(0) =~= sels);
                    assert(cmds.deep_view() =~= Seq::<Seq<char>>::empty());
                    assert(Seq::<Seq<char>>::empty() + spec_commands(bv, sels) =~= spec_commands(
                        bv,
                        sels,
                    ));
                }
                #[verifier::loop_isolation(false)]
                while i < selectors.len()
                    invariant
                        i <= sels.len(),
                        cmds.deep_view() + spec_commands(bv, sels.skip(i as int))
                            == spec_commands(bv, sels),
                    decreases sels.len() - i,
                {
                    proof {
                        assert(sels.skip(i as int)[0] == sels[i as int]);
                        assert(sels.skip(i as int).drop_first() =~= sels.skip(i as int + 1));
                    }
                    let (name, text) = split_selector_str(selectors[i].as_str());
                    let found = find_block_idx(blocks, &name);
                    match (found, text) {
                        (Some(bi), None) => {
                            let ghost pre = cmds.deep_view();
                            cmds.push(blocks[bi].cmd.clone());
                            proof {
                                assert(cmds.deep_view() =~= pre.push(bv[bi as int].cmd));
                                assert(sel_cmd(bv, sels[i as int]) =~= seq![bv[bi as int].cmd]);
                                assert(pre.push(bv[bi as int].cmd) + spec_commands(
                                    bv,
                                    sels.skip(i as int + 1),
                                ) =~= pre + (sel_cmd(bv, sels[i as int]) + spec_commands(
                                    bv,
                                    sels.skip(i as int + 1),
                                )));
                            }
                        },
                        _ => {
                            proof {
                                assert(sel_cmd(bv, sels[i as int]) =~= Seq::<Seq<char>>::empty());
                                assert(cmds.deep_view() + spec_commands(bv, sels.skip(i as int + 1))
                                    =~= cmds.deep_view() + (sel_cmd(bv, sels[i as int])
                                    + spec_commands(bv, sels.skip(i as int + 1))));
                            }
                        },
                    }
                    i = i + 1;
                }
                proof {
                    assert(sels.skip(sels.len() as int) =~= Seq::<Seq<char>>::empty());
                    assert(cmds.deep_view() + Seq::<Seq<char>>::empty() =~= cmds.deep_view());
                }
                cmds
            },
        }
    }

    /// One command per block, in collection order: what `update_all` will
    /// consume outcomes for. Empty while the state is degraded.
    pub fn commands_for_update_all(&self) -> (r: Vec<String>)
        ensures
            r.deep_view() == spec_all_commands(self@),
    {
        match &self.status {
            Status::ParseError(_) => {
                let r: Vec<String> = Vec::new();
                proof {
                    assert(r.deep_view() =~= Seq::<Seq<char>>::empty());
                }
                r
            },
            Status::ParseOk { blocks, .. } => {
                let ghost bv = blocks.deep_view();
                let mut cmds: Vec<String> = Vec::new();
                let mut i: usize = 0;
                proof {
                    assert(cmds.deep_view() =~= cmds_of(bv.take(0)));
                }
                #[verifier::loop_isolation(false)]
                while i < blocks.len()
                    invariant
                        i <= bv.len(),
                        cmds.deep_view() == cmds_of(bv.take(i as int)),
                    decreases bv.len() - i,
                {
                    let ghost pre = cmds.deep_view();
                    cmds.push(blocks[i].cmd.clone());
                    i = i + 1;
                    proof {
                        let s = bv.take(i as int);
                        assert(cmds.deep_view().len() == pre.len() + 1);
                        assert(cmds_of(s).len() == i);
                        assert forall|j: int| 0 <= j < cmds.deep_view().len() implies cmds.deep_view()[j]
                            == cmds_of(s)[j] by {
                            assert(cmds_of(s)[j] == s[j].cmd);
                            assert(s[j] == bv[j]);
                            if j < pre.len() {
                                assert(cmds.deep_view()[j] == pre[j]);
                            } else {
                                assert(cmds.deep_view()[j] == bv[j].cmd);
                            }
                        }
                        assert(cmds.deep_view() =~= cmds_of(s));
                    }
                }
                proof {
                    assert(bv.take(bv.len() as int) =~= bv);
                }
                cmds
            },
        }
    }

    /// Apply the selectors in order against the live blocks, consuming one
    /// outcome per command actually run (as listed by
    /// [`Bard::commands_for_update`]): a bare known name re-runs that block,
    /// `name:text` sets its output, an unknown name reports `block not
    /// found` and the batch goes on. Returns the success flag and the
    /// accumulated report; in degraded mode nothing is touched and the
    /// parse error is the report.
    pub fn update(&mut self, selectors: &Vec<String>, outcomes: Vec<CmdOutcome>) -> (r: (
        bool,
        String,
    ))
        requires
            outcomes.deep_view().len() == spec_bard_commands(
                old(self)@,
                selectors.deep_view(),
            ).len(),
        ensures
            final(self)@.config_path == old(self)@.config_path,
            match old(self)@.status {
                StatusV::Ready { delim, prefix, suffix, blocks } => {
                    let u = spec_update(blocks, selectors.deep_view(), outcomes.deep_view());
                    final(self)@.status == (StatusV::Ready { delim, prefix, suffix, blocks: u.blocks })
                        && r.0 == true && r.1@ == u.report
                },
                StatusV::Degraded(e) => final(self)@ == old(self)@ && r.0 == false && r.1@
                    == error_report(e),
            },
    {
        let mut st = Status::ParseError(ParseError::BadStruct);
        core::mem::swap(&mut st, &mut self.status);
        match st {
            Status::ParseError(e) => {
                let msg = e.report();
                self.status = Status::ParseError(e);
                (false, msg)
            },
            Status::ParseOk { delim, prefix, suffix, mut blocks } => {
                let ghost blocks0 = blocks.deep_view();
                let ghost sels = selectors.deep_view();
                let ghost outs = outcomes.deep_view();
                let ghost tot = spec_update(blocks0, sels, outs);
                let mut report = String::new();
                let nout = outcomes.len();
                let mut i: usize = 0;
                let mut k: usize = 0;
                proof {
                    assert(nout == outs.len());
                    assert(sels.skip(0) =~= sels);
                    assert(outs.skip(0) =~= outs);
                    assert(report@ + tot.report =~= tot.report);
                }
                #[verifier::loop_isolation(false)]
                while i < selectors.len()
                    invariant
                        i <= sels.len(),
                        k <= outs.len(),
                        same_shape(blocks0, blocks.deep_view()),
                        spec_commands(blocks0, sels.skip(i as int)).len() == outs.len() - k,
                        tot.blocks == spec_update(
                            blocks.deep_view(),
                            sels.skip(i as int),
                            outs.skip(k as int),
                        ).blocks,
                        tot.report == report@ + spec_update(
                            blocks.deep_view(),
                            sels.skip(i as int),
                            outs.skip(k as int),
                        ).report,
                        tot.used == k + spec_update(
                            blocks.deep_view(),
                            sels.skip(i as int),
                            outs.skip(k as int),
                        ).used,
                    decreases sels.len() - i,
                {
                    let ghost bcur = blocks.deep_view();
                    let ghost rold = report@;
                    proof {
                        assert(sels.skip(i as int)[0] == sels[i as int]);
                        assert(sels.skip(i as int).drop_first() =~= sels.skip(i as int + 1));
                    }
                    let (name, text) = split_selector_str(selectors[i].as_str());
                    let found = find_block_idx(&blocks, &name);
                    proof {
                        lemma_find_block_same(blocks0, bcur, name@);
                        lemma_find_block_in_range(blocks0, name@);
                        assert(spec_commands(blocks0, sels.skip(i as int)) == sel_cmd(
                            blocks0,
                            sels[i as int],
                        ) + spec_commands(blocks0, sels.skip(i as int + 1)));
                    }
                    match (found, text) {
                        (None, _) => {
                            let line = not_found_report(&name);
                            report.append(line.as_str());
                            proof {
                                assert(sel_cmd(blocks0, sels[i as int]) =~= Seq::<
                                    Seq<char>,
                                >::empty());
                                let rest = spec_update(
                                    bcur,
                                    sels.skip(i as int + 1),
                                    outs.skip(k as int),
                                );
                                assert(rold + (not_found_line(name@) + rest.report) =~= (rold
                                    + not_found_line(name@)) + rest.report);
                            }
                        },
                        (Some(bi), Some(t)) => {
                            let ghost oldblk = bcur[bi as int];
                            let line = blocks[bi].set_output(t.as_str());
                            report.append(line.as_str());
                            proof {
                                assert(sel_cmd(blocks0, sels[i as int]) =~= Seq::<
                                    Seq<char>,
                                >::empty());
                                let bnew = bcur.update(bi as int, set_model(oldblk, t@));
                                assert forall|j: int|
                                    0 <= j < blocks.deep_view().len() implies blocks.deep_view()[j]
                                    == bnew[j] by {
                                    if j == bi as int {
                                    } else {
                                    }
                                }
                                assert(blocks.deep_view() =~= bnew);
                                assert forall|j: int|
                                    0 <= j < blocks0.len() implies ((#[trigger] blocks0[j]).name
                                    == bnew[j].name && blocks0[j].cmd == bnew[j].cmd) by {
                                    if j == bi as int {
                                    } else {
                                    }
                                }
                                assert(same_shape(blocks0, bnew));
                                let rest = spec_update(
                                    bnew,
                                    sels.skip(i as int + 1),
                                    outs.skip(k as int),
                                );
                                assert(rold + (set_line(oldblk.name, t@) + rest.report) =~= (rold
                                    + set_line(oldblk.name, t@)) + rest.report);
                            }
                        },
                        (Some(bi), None) => {
                            proof {
                                assert(sel_cmd(blocks0, sels[i as int]) =~= seq![
                                    blocks0[bi as int].cmd,
                                ]);
                                assert(spec_commands(blocks0, sels.skip(i as int)).len() == 1
                                    + spec_commands(blocks0, sels.skip(i as int + 1)).len());
                                assert(k < outs.len());
                            }
                            let ghost oldblk = bcur[bi as int];
                            let ghost kold = k as int;
                            let line = blocks[bi].run(&outcomes[k]);
                            report.append(line.as_str());
                            k = k + 1;
                            proof {
                                assert(outcomes@[kold]@ == outs[kold]);
                                let bnew = bcur.update(bi as int, run_model(oldblk, outs[kold]));
                                assert forall|j: int|
                                    0 <= j < blocks.deep_view().len() implies blocks.deep_view()[j]
                                    == bnew[j] by {
                                    if j == bi as int {
                                    } else {
                                    }
                                }
                                assert(blocks.deep_view() =~= bnew);
                                assert forall|j: int|
                                    0 <= j < blocks0.len() implies ((#[trigger] blocks0[j]).name
                                    == bnew[j].name && blocks0[j].cmd == bnew[j].cmd) by {
                                    if j == bi as int {
                                    } else {
                                    }
                                }
                                assert(same_shape(blocks0, bnew));
                                assert(outs.skip(kold).drop_first() =~= outs.skip(kold + 1));
                                assert(outs.skip(kold)[0] == outs[kold]);
                                let rest = spec_update(
                                    bnew,
                                    sels.skip(i as int + 1),
                                    outs.skip(kold + 1),
                                );
                                assert(rold + (run_line(oldblk.name, outs[kold]) + rest.report)
                                    =~= (rold + run_line(oldblk.name, outs[kold])) + rest.report);
                            }
                        },
                    }
                    i = i + 1;
                }
                proof {
                    assert(sels.skip(sels.len() as int) =~= Seq::<Seq<char>>::empty());
                    assert(tot.report =~= report@);
                }
                self.status = Status::ParseOk { delim, prefix, suffix, blocks };
                (true, report)
            },
        }
    }

    /// Run every block in collection order, consuming one outcome per block
    /// (as listed by [`Bard::commands_for_update_all`]), and accumulate one
    /// run line per block. In degraded mode nothing is touched and the
    /// parse error is the report.
    pub fn update_all(&mut self, outcomes: Vec<CmdOutcome>) -> (r: (bool, String))
        requires
            outcomes.deep_view().len() == spec_all_commands(old(self)@).len(),
        ensures
            final(self)@.config_path == old(self)@.config_path,
            match old(self)@.status {
                StatusV::Ready { delim, prefix, suffix, blocks } => {
                    let u = spec_run_all(blocks, outcomes.deep_view());
                    final(self)@.status == (StatusV::Ready { delim, prefix, suffix, blocks: u.0 })
                        && r.0 == true && r.1@ == u.1
                },
                StatusV::Degraded(e) => final(self)@ == old(self)@ && r.0 == false && r.1@
                    == error_report(e),
            },
    {
        let mut st = Status::ParseError(ParseError::BadStruct);
        core::mem::swap(&mut st, &mut self.status);
        match st {
            Status::ParseError(e) => {
                let msg = e.report();
                self.status = Status::ParseError(e);
                (false, msg)
            },
            Status::ParseOk { delim, prefix, suffix, mut blocks } => {
                let ghost blocks0 = blocks.deep_view();
                let ghost outs = outcomes.deep_view();
                let ghost tot = spec_run_all(blocks0, outs);
                let mut report = String::new();
                let mut i: usize = 0;
                proof {
                    assert(cmds_of(blocks0).len() == blocks0.len());
                    assert(blocks0.skip(0) =~= blocks0);
                    assert(outs.skip(0) =~= outs);
                    assert(blocks0.take(0) + tot.0 =~= tot.0);
                    assert(report@ + tot.1 =~= tot.1);
                }
                #[verifier::loop_isolation(false)]
                while i < blocks.len()
                    invariant
                        i <= blocks0.len(),
                        blocks.deep_view().len() == blocks0.len(),
                        blocks.deep_view().skip(i as int) == blocks0.skip(i as int),
                        tot.0 == blocks.deep_view().take(i as int) + spec_run_all(
                            blocks0.skip(i as int),
                            outs.skip(i as int),
                        ).0,
                        tot.1 == report@ + spec_run_all(
                            blocks0.skip(i as int),
                            outs.skip(i as int),
                        ).1,
                    decreases blocks0.len() - i,
                {
                    let ghost bcur = blocks.deep_view();
                    proof {
                        assert(blocks0.skip(i as int)[0] == blocks0[i as int]);
                        assert(bcur.skip(i as int)[0] == bcur[i as int]);
                        assert(outs.skip(i as int)[0] == outs[i as int]);
                        assert(blocks0.skip(i as int).drop_first() =~= blocks0.skip(i as int + 1));
                        assert(outs.skip(i as int).drop_first() =~= outs.skip(i as int + 1));
                        assert(outcomes@[i as int]@ == outs[i as int]);
                    }
                    let line = blocks[i].run(&outcomes[i]);
                    report.append(line.as_str());
                    proof {
                        let rm = run_model(blocks0[i as int], outs[i as int]);
                        let bnew = bcur.update(i as int, rm);
                        assert forall|j: int| 0 <= j < blocks.deep_view().len() implies blocks.deep_view()[j]
                            == bnew[j] by {
                            if j == i as int {
                            } else {
                            }
                        }
                        assert(blocks.deep_view() =~= bnew);
                        assert(bnew.skip(i as int + 1) =~= blocks0.skip(i as int + 1));
                        assert(bnew.take(i as int + 1) =~= bcur.take(i as int).push(rm));
                        let rest = spec_run_all(blocks0.skip(i as int + 1), outs.skip(i as int + 1));
                        assert(bcur.take(i as int) + (seq![rm] + rest.0) =~= bcur.take(i as int).push(
                            rm,
                        ) + rest.0);
                    }
                    i = i + 1;
                }
                proof {
                    assert(blocks0.skip(blocks0.len() as int) =~= Seq::<BlockV>::empty());
                    assert(tot.0 =~= blocks.deep_view().take(blocks0.len() as int));
                    assert(blocks.deep_view().take(blocks0.len() as int) =~= blocks.deep_view());
                    assert(tot.1 =~= report@);
                }
                self.status = Status::ParseOk { delim, prefix, suffix, blocks };
                (true, report)
            },
        }
    }

    /// Render the bar from the cached outputs — the global prefix, the
    /// non-empty segments joined by the delimiter, the global suffix — and
    /// return it. A pure read: no command runs and no state changes. In
    /// degraded mode the parse-error report is the error instead.
    pub fn draw_bar(&self) -> (r: Result<String, String>)
        ensures
            match (r, spec_draw_bar(self@.status)) {
                (Ok(s), Ok(t)) => s@ == t,
                (Err(m), Err(t)) => m@ == t,
                _ => false,
            },
    {
        match &self.status {
            Status::ParseError(e) => Err(e.report()),
            Status::ParseOk { delim, prefix, suffix, blocks } => {
                let ghost bv = blocks.deep_view();
                let mut out = String::new();
                out.append(prefix.as_str());
                let mut first = true;
                let mut i: usize = 0;
                proof {
                    assert(prefix@ + joined(segments(bv.take(0)), delim@) =~= prefix@);
                }
                #[verifier::loop_isolation(false)]
                while i < blocks.len()
                    invariant
                        i <= bv.len(),
                        out@ == prefix@ + joined(segments(bv.take(i as int)), delim@),
                        first == (segments(bv.take(i as int)).len() == 0),
                    decreases bv.len() - i,
                {
                    let ghost segs = segments(bv.take(i as int));
                    proof {
                        assert(bv.take(i as int + 1) =~= bv.take(i as int).push(bv[i as int]));
                        lemma_segments_push(bv.take(i as int), bv[i as int]);
                    }
                    match blocks[i].draw() {
                        Some(seg) => {
                            proof {
                                assert(block_draw(bv[i as int]) == Some(seg@));
                                lemma_joined_push(segs, seg@, delim@);
                                assert(segments(bv.take(i as int + 1)) == segs.push(seg@));
                            }
                            if !first {
                                out.append(delim.as_str());
                            }
                            out.append(seg.as_str());
                            first = false;
                            proof {
                                if segs.len() == 0 {
                                    assert(prefix@ + joined(segs, delim@) =~= prefix@);
                                    assert(prefix@ + seg@ =~= prefix@ + joined(
                                        segments(bv.take(i as int + 1)),
                                        delim@,
                                    ));
                                } else {
                                    assert((prefix@ + joined(segs, delim@)) + delim@ + seg@
                                        =~= prefix@ + (joined(segs, delim@) + delim@ + seg@));
                                }
                            }
                        },
                        None => {
                            proof {
                                assert(block_draw(bv[i as int]) is None);
                                assert(segments(bv.take(i as int + 1)) == segs);
                            }
                        },
                    }
                    i = i + 1;
                }
                proof {
                    assert(bv.take(bv.len() as int) =~= bv);
                }
                out.append(suffix.as_str());
                proof {
                    assert((prefix@ + joined(segments(bv), delim@)) + suffix@ =~= bar_text(
                        delim@,
                        prefix@,
                        suffix@,
                        bv,
                    ));
                }
                Ok(out)
            },
        }
    }

    /// Build a daemon state from a parsed configuration document. The
    /// global settings fall back to their defaults where absent; a missing
    /// `blocks` hash, a block without a string name, or a block without a
    /// `cmd` degrades the state instead of failing. The definitions' names
    /// must be pairwise distinct, as the keys of a parsed mapping are, so
    /// that the collection's names are unique.
    pub fn from_config(config_path: String, doc: ConfigDoc) -> (b: Bard)
        requires
            match doc@.blocks {
                Some(defs) => def_names_distinct(defs),
                None => true,
            },
        ensures
            b@.config_path == config_path@,
            b@.status == spec_build(doc@),
            match b@.status {
                StatusV::Ready { blocks, .. } => names_distinct(blocks),
                StatusV::Degraded(_) => true,
            },
    {
        let ghost docv = doc@;
        let ConfigDoc { delim, prefix, suffix, blocks } = doc;
        let defs = match blocks {
            None => {
                return Bard { status: Status::ParseError(ParseError::BadStruct), config_path };
            },
            Some(defs) => defs,
        };
        let ghost defs0 = defs.deep_view();
        let mut defs = defs;
        let mut built: Vec<Block> = Vec::new();
        #[verifier::loop_isolation(false)]
        while defs.len() > 0
            invariant
                docv.blocks == Some(defs0),
                build_blocks(defs0) == (match build_blocks(defs.deep_view()) {
                    Ok(rest) => Ok::<Seq<BlockV>, ParseErrorV>(built.deep_view() + rest),
                    Err(e) => Err::<Seq<BlockV>, ParseErrorV>(e),
                }),
            decreases defs@.len(),
        {
            let ghost pre = defs.deep_view();
            let d = defs.remove(0);
            proof {
                assert(defs.deep_view() =~= pre.drop_first());
                assert(d@ == pre[0]);
            }
            let name = match d.name {
                None => {
                    proof {
                        assert(pre[0].name is None);
                        assert(build_blocks(pre) == Err::<Seq<BlockV>, ParseErrorV>(
                            ParseErrorV::BadStruct,
                        ));
                        assert(docv.blocks == Some(defs0));
                        assert(spec_build(docv) == StatusV::Degraded(ParseErrorV::BadStruct));
                    }
                    return Bard {
                        status: Status::ParseError(ParseError::BadStruct),
                        config_path,
                    };
                },
                Some(name) => name,
            };
            let ghost nv = name@;
            let cmd = match d.cmd {
                None => {
                    proof {
                        assert(pre[0].name == Some(nv));
                        assert(pre[0].cmd is None);
                        assert(build_blocks(pre) == Err::<Seq<BlockV>, ParseErrorV>(
                            ParseErrorV::MissingField { block: nv, field: "cmd"@ },
                        ));
                    }
                    return Bard {
                        status: Status::ParseError(ParseError::MissingField {
                            block: name,
                            field: String::from_str("cmd"),
                        }),
                        config_path,
                    };
                },
                Some(cmd) => cmd,
            };
            let ghost cv = cmd@;
            let ghost pv = d.prefix.deep_view();
            let ghost old_built = built.deep_view();
            built.push(Block::init(name, cmd, d.prefix));
            proof {
                let b0 = BlockV { name: nv, cmd: cv, prefix: pv, last_output: Seq::empty() };
                assert(built.deep_view() =~= old_built.push(b0));
                assert(pre[0].name == Some(nv));
                assert(pre[0].cmd == Some(cv));
                assert(pre[0].prefix == pv);
                match build_blocks(pre.drop_first()) {
                    Ok(rest) => {
                        assert(old_built + (seq![b0] + rest) =~= old_built.push(b0) + rest);
                    },
                    Err(_) => {},
                }
            }
        }
        proof {
            assert(defs.deep_view() =~= Seq::<BlockDefV>::empty());
            if let Ok(rest) = build_blocks(defs.deep_view()) {
                assert(built.deep_view() + rest =~= built.deep_view());
            }
            lemma_build_blocks_distinct(defs0);
        }
        let delim = match delim {
            Some(s) => s,
            None => String::from_str(" | "),
        };
        let prefix = match prefix {
            Some(s) => s,
            None => String::from_str(" "),
        };
        let suffix = match suffix {
            Some(s) => s,
            None => String::from_str(" "),
        };
        Bard { status: Status::ParseOk { delim, prefix, suffix, blocks: built }, config_path }
    }

    /// Build the daemon state from configuration text at the given path:
    /// the state the parsed model builds, or, where the text does not even
    /// scan, a degraded state serving the scanner's message. The daemon
    /// keeps serving either way.
    pub fn init(config_path: String, config_text: &str) -> (b: Bard)
        ensures
            b@.config_path == config_path@,
            b@.status == (match config_model_of(config_text@) {
                Ok(d) => spec_build(d),
                Err(m) => StatusV::Degraded(ParseErrorV::Scan(m)),
            }),
            match b@.status {
                StatusV::Ready { blocks, .. } => names_distinct(blocks) && (forall|j: int|
                    0 <= j < blocks.len() ==> (#[trigger] blocks[j]).last_output.len() == 0),
                StatusV::Degraded(_) => true,
            },
    {
        match parse_config(config_text) {
            Err(msg) => Bard { status: Status::ParseError(ParseError::Scan(msg)), config_path },
            Ok(doc) => {
                proof {
                    if let Some(defs) = doc@.blocks {
                        lemma_build_blocks_fresh(defs);
                    }
                }
                Bard::from_config(config_path, doc)
            },
        }
    }

    /// Replace the whole state from fresh configuration text, keeping the
    /// stored configuration path: afterwards the daemon is ready with the
    /// configured blocks exactly when the text parses into a valid
    /// configuration, and degraded, serving the parse error, otherwise —
    /// it never goes down.
    pub fn restart(&mut self, config_text: &str)
        ensures
            final(self)@.config_path == old(self)@.config_path,
            final(self)@.status == (match config_model_of(config_text@) {
                Ok(d) => spec_build(d),
                Err(m) => StatusV::Degraded(ParseErrorV::Scan(m)),
            }),
            match final(self)@.status {
                StatusV::Ready { blocks, .. } => names_distinct(blocks) && (forall|j: int|
                    0 <= j < blocks.len() ==> (#[trigger] blocks[j]).last_output.len() == 0),
                StatusV::Degraded(_) => true,
            },
    {
        let path = self.config_path.clone();
        *self = Bard::init(path, config_text);
    }

    /// A degraded state carrying the given message: what a configuration
    /// that cannot be read at all comes to. The daemon keeps serving and
    /// reports the message; it never goes down over a bad configuration.
    pub fn degraded(config_path: String, message: String) -> (b: Bard)
        ensures
            b@.config_path == config_path@,
            b@.status == StatusV::Degraded(ParseErrorV::Scan(message@)),
    {
        Bard { status: Status::ParseError(ParseError::Scan(message)), config_path }
    }

    /// Whether the last configuration parse succeeded and blocks are live.
    pub fn is_ready(&self) -> (r: bool)
        ensures
            r == (self@.status is Ready),
    {
        match &self.status {
            Status::ParseOk { .. } => true,
            Status::ParseError(_) => false,
        }
    }

    /// The path the daemon (re)reads its configuration from.
    pub fn config_path(&self) -> (r: &String)
        ensures
            r@ == self@.config_path,
    {
        &self.config_path
    }
}

} // verus!
