//! Testing the collected links: which are tested, in what order, and what the
//! results leave of them.

use vstd::prelude::*;

use crate::collections::{listing, listing_holds_the_members, TextMap, TextSet};
use crate::config::TesterConfig;
use crate::knife::{asks_for_bytes, speed_address, speed_url};
use crate::naming::{rename_config, renamed, results, ResultView, TestResult};
use crate::numbers::{decimal, decimal_text};
use crate::order::{
    arrange, arranged, arrangement, arrangement_is_stable, is_stable_order, numbers, positions,
};
use crate::scraper::{log_worker, says, AppEvent, LogLevel};
use crate::storage::{is_mixed, mixes};
use crate::store::{add_link, contents, links_under, with_link};
use crate::text::{copy_texts, join, joined, push_text, texts};

verus! {

/// The links that passed a test, under the names that the test gave them.
#[derive(Clone, Debug)]
pub struct Phase2Result {
    pub ping_passed_mixed: TextSet,
    pub speed_passed_mixed: TextSet,
}

impl Default for Phase2Result {
    fn default() -> (r: Self)
        ensures
            r.ping_passed_mixed@ == Set::<Seq<char>>::empty(),
            r.speed_passed_mixed@ == Set::<Seq<char>>::empty(),
    {
        Phase2Result { ping_passed_mixed: TextSet::new(), speed_passed_mixed: TextSet::new() }
    }
}

// ---------------------------------------------------------------------------
// What is tested
// ---------------------------------------------------------------------------

/// The texts that a map of strings holds.
pub open spec fn named_texts(m: Map<Seq<char>, String>) -> Map<Seq<char>, Seq<char>> {
    Map::new(|k: Seq<char>| m.contains_key(k), |k: Seq<char>| m[k]@)
}

/// The links to test of the first `n` protocols, protocol by protocol.
pub open spec fn tested_from(
    data: Map<Seq<char>, Set<Seq<char>>>,
    keys: Seq<Seq<char>>,
    n: int,
) -> Seq<Seq<char>>
    decreases n,
{
    if n <= 0 {
        Seq::empty()
    } else if is_mixed(keys[n - 1]) {
        tested_from(data, keys, n - 1) + listing(data[keys[n - 1]])
    } else {
        tested_from(data, keys, n - 1)
    }
}

/// The links to test: those of the protocols that go into the common file.
pub open spec fn tested(data: Map<Seq<char>, Set<Seq<char>>>) -> Seq<Seq<char>> {
    tested_from(data, listing(data.dom()), listing(data.dom()).len() as int)
}

/// `owners`, with `p` as the owner of those of `links` that have none.
pub open spec fn adopted(
    owners: Map<Seq<char>, Seq<char>>,
    links: Set<Seq<char>>,
    p: Seq<char>,
) -> Map<Seq<char>, Seq<char>> {
    Map::new(
        |l: Seq<char>| owners.contains_key(l) || links.contains(l),
        |l: Seq<char>|
            if owners.contains_key(l) {
                owners[l]
            } else {
                p
            },
    )
}

/// The protocol that each link to test of the first `n` protocols belongs to:
/// the first that has it.
pub open spec fn owners_from(
    data: Map<Seq<char>, Set<Seq<char>>>,
    keys: Seq<Seq<char>>,
    n: int,
) -> Map<Seq<char>, Seq<char>>
    decreases n,
{
    if n <= 0 {
        Map::empty()
    } else if is_mixed(keys[n - 1]) {
        adopted(owners_from(data, keys, n - 1), data[keys[n - 1]], keys[n - 1])
    } else {
        owners_from(data, keys, n - 1)
    }
}

/// The protocol that each link to test belongs to.
pub open spec fn owners_in(data: Map<Seq<char>, Set<Seq<char>>>) -> Map<Seq<char>, Seq<char>> {
    owners_from(data, listing(data.dom()), listing(data.dom()).len() as int)
}

fn note_links(
    to_test: &mut Vec<String>,
    owners: &mut TextMap<String>,
    p: &str,
    links: &TextSet,
)
    ensures
        texts(final(to_test)@) == texts(old(to_test)@) + listing(links@),
        named_texts(final(owners)@) == adopted(named_texts(old(owners)@), links@, p@),
{
    let list = links.to_vec();
    let ghost all = listing(links@);
    let ghost start = texts(to_test@);
    let ghost was = named_texts(owners@);
    assert(adopted(was, all.take(0).to_set(), p@) =~= was);
    assert(start + all.take(0) =~= start);
    for j in 0..list.len()
        invariant
            texts(list@) == all,
            texts(to_test@) == start + all.take(j as int),
            named_texts(owners@) == adopted(was, all.take(j as int).to_set(), p@),
    {
        let ghost x = all[j as int];
        let ghost before = to_test@;
        let ghost held = owners@;
        assert(list@[j as int]@ == x);
        to_test.push(list[j].clone());
        if !owners.contains_key(&list[j]) {
            owners.insert(list[j].clone(), p.to_string());
        }
        proof {
            assert(texts(to_test@) =~= texts(before).push(x));
            assert(all.take(j + 1) =~= all.take(j as int).push(x));
            let prev = all.take(j as int).to_set();
            let next = all.take(j + 1).to_set();
            assert forall|z: Seq<char>| next.contains(z) <==> prev.contains(z) || z == x by {
                if all.take(j as int).contains(z) {
                    let m = all.take(j as int).index_of(z);
                    assert(all.take(j + 1)[m] == z);
                }
                if z == x {
                    assert(all.take(j + 1)[j as int] == z);
                }
                if all.take(j + 1).contains(z) && z != x {
                    let m = all.take(j + 1).index_of(z);
                    assert(all.take(j as int)[m] == z);
                }
            }
            if held.contains_key(x) {
                assert(named_texts(held).contains_key(x));
                assert(adopted(was, prev, p@).contains_key(x));
                assert(adopted(was, next, p@) =~= adopted(was, prev, p@));
            } else {
                assert(!named_texts(held).contains_key(x));
                assert(!adopted(was, prev, p@).contains_key(x));
                assert(named_texts(owners@) =~= named_texts(held).insert(x, p@));
                assert(adopted(was, next, p@) =~= adopted(was, prev, p@).insert(x, p@));
            }
        }
    }
    assert(all.take(list@.len() as int) =~= all);
}

// ---------------------------------------------------------------------------
// What the results leave
// ---------------------------------------------------------------------------

/// The results with a delay, in order.
pub open spec fn timed(rs: Seq<ResultView>) -> Seq<ResultView>
    decreases rs.len(),
{
    if rs.len() == 0 {
        Seq::empty()
    } else if rs.last().delay_ms is Some {
        timed(rs.drop_last()).push(rs.last())
    } else {
        timed(rs.drop_last())
    }
}

/// The delays of results that have one.
pub open spec fn delays(rs: Seq<ResultView>) -> Seq<int> {
    Seq::new(rs.len(), |i: int| rs[i].delay_ms->0 as int)
}

/// The results with a delay, the shortest first.
pub open spec fn ping_selection(rs: Seq<ResultView>) -> Seq<ResultView> {
    arranged(timed(rs), delays(timed(rs)))
}

/// The rank of a result's rate, zero where it has none.
pub open spec fn rank_of(r: ResultView) -> u64 {
    match r.download {
        Some(s) => s.0,
        None => 0,
    }
}

/// The results with a rate above zero, in order.
pub open spec fn rated(rs: Seq<ResultView>) -> Seq<ResultView>
    decreases rs.len(),
{
    if rs.len() == 0 {
        Seq::empty()
    } else if rank_of(rs.last()) > 0 {
        rated(rs.drop_last()).push(rs.last())
    } else {
        rated(rs.drop_last())
    }
}

/// How far the rates of results that have one are from the top.
pub open spec fn shortfalls(rs: Seq<ResultView>) -> Seq<int> {
    Seq::new(rs.len(), |i: int| u64::MAX - rank_of(rs[i]))
}

/// The results with a rate above zero, the highest first.
pub open spec fn speed_selection(rs: Seq<ResultView>) -> Seq<ResultView> {
    arranged(rated(rs), shortfalls(rated(rs)))
}

fn reorder(items: &Vec<TestResult>, order: &Vec<usize>, keys: &Vec<u128>) -> (r: Vec<TestResult>)
    requires
        keys@.len() == items@.len(),
        positions(order@) == arrangement(numbers(keys@)),
        is_stable_order(positions(order@), numbers(keys@)),
    ensures
        results(r@) == arranged(results(items@), numbers(keys@)),
{
    let mut out: Vec<TestResult> = Vec::new();
    for i in 0..order.len()
        invariant
            keys@.len() == items@.len(),
            order@.len() == items@.len(),
            positions(order@) == arrangement(numbers(keys@)),
            is_stable_order(positions(order@), numbers(keys@)),
            results(out@) == arranged(results(items@), numbers(keys@)).take(i as int),
    {
        let ghost before = out@;
        let at: usize = order[i];
        assert(positions(order@)[i as int] == at);
        out.push(items[at].clone());
        let ghost all = arranged(results(items@), numbers(keys@));
        assert(results(out@) =~= results(before).push(items@[at as int]@));
        assert(all.take(i + 1) =~= all.take(i as int).push(all[i as int]));
    }
    let ghost all = arranged(results(items@), numbers(keys@));
    assert(all.take(order@.len() as int) =~= all);
    out
}

/// The results with a delay, the shortest first.
pub fn select_ping(rs: &Vec<TestResult>) -> (r: Vec<TestResult>)
    ensures
        results(r@) == ping_selection(results(rs@)),
{
    let mut kept: Vec<TestResult> = Vec::new();
    let mut keys: Vec<u128> = Vec::new();
    let ghost all = results(rs@);
    assert(all.take(0) =~= Seq::<ResultView>::empty());
    for i in 0..rs.len()
        invariant
            all == results(rs@),
            results(kept@) == timed(all.take(i as int)),
            numbers(keys@) == delays(results(kept@)),
    {
        let ghost before = kept@;
        assert(all.take(i + 1).drop_last() =~= all.take(i as int));
        assert(all.take(i + 1).last() == rs@[i as int]@);
        match rs[i].delay_ms {
            Some(d) => {
                kept.push(rs[i].clone());
                let ghost held = keys@;
                keys.push(d);
                assert(results(kept@) =~= results(before).push(rs@[i as int]@));
                assert(numbers(keys@) =~= numbers(held).push(d as int));
                assert(delays(results(kept@)) =~= delays(results(before)).push(d as int));
            },
            None => {},
        }
    }
    assert(all.take(all.len() as int) =~= all);
    assert(numbers(keys@).len() == results(kept@).len());
    let order = arrange(&keys);
    reorder(&kept, &order, &keys)
}

/// The results with a rate above zero, the highest first.
pub fn select_speed(rs: &Vec<TestResult>) -> (r: Vec<TestResult>)
    ensures
        results(r@) == speed_selection(results(rs@)),
{
    let mut kept: Vec<TestResult> = Vec::new();
    let mut keys: Vec<u128> = Vec::new();
    let ghost all = results(rs@);
    assert(all.take(0) =~= Seq::<ResultView>::empty());
    for i in 0..rs.len()
        invariant
            all == results(rs@),
            results(kept@) == rated(all.take(i as int)),
            numbers(keys@) == shortfalls(results(kept@)),
    {
        let ghost before = kept@;
        assert(all.take(i + 1).drop_last() =~= all.take(i as int));
        assert(all.take(i + 1).last() == rs@[i as int]@);
        match &rs[i].download {
            Some(s) => {
                if s.rank > 0 {
                    kept.push(rs[i].clone());
                    let ghost held = keys@;
                    keys.push((u64::MAX - s.rank) as u128);
                    let ghost k = u64::MAX - s.rank;
                    assert(results(kept@) =~= results(before).push(rs@[i as int]@));
                    assert(numbers(keys@) =~= numbers(held).push(k));
                    assert(shortfalls(results(kept@)) =~= shortfalls(results(before)).push(k));
                }
            },
            None => {},
        }
    }
    assert(all.take(all.len() as int) =~= all);
    assert(numbers(keys@).len() == results(kept@).len());
    let order = arrange(&keys);
    reorder(&kept, &order, &keys)
}

/// The place in the ranking of the result at position `i`.
pub open spec fn place_of(ranked: bool, i: int) -> Option<usize> {
    if ranked {
        Some((i + 1) as usize)
    } else {
        None
    }
}

/// The new names of the first `n` results.
pub open spec fn new_names(c: TesterConfig, rs: Seq<ResultView>, ranked: bool, n: int) -> Set<
    Seq<char>,
>
    decreases n,
{
    if n <= 0 {
        Set::empty()
    } else {
        new_names(c, rs, ranked, n - 1).insert(
            renamed(rs[n - 1].link, c, rs[n - 1], place_of(ranked, n - 1)),
        )
    }
}

/// `m`, and for the link of each of the first `n` results its new name.
pub open spec fn noted(
    m: Map<Seq<char>, Seq<char>>,
    c: TesterConfig,
    rs: Seq<ResultView>,
    ranked: bool,
    n: int,
) -> Map<Seq<char>, Seq<char>>
    decreases n,
{
    if n <= 0 {
        m
    } else {
        noted(m, c, rs, ranked, n - 1).insert(
            rs[n - 1].link,
            renamed(rs[n - 1].link, c, rs[n - 1], place_of(ranked, n - 1)),
        )
    }
}

fn rename_all(c: &TesterConfig, rs: &Vec<TestResult>, ranked: bool) -> (r: TextSet)
    ensures
        r@ == new_names(*c, results(rs@), ranked, rs@.len() as int),
{
    let mut out = TextSet::new();
    for i in 0..rs.len()
        invariant
            out@ == new_names(*c, results(rs@), ranked, i as int),
    {
        let rank: Option<usize> = if ranked {
            Some(i + 1)
        } else {
            None
        };
        assert(results(rs@)[i as int] == rs@[i as int]@);
        out.insert(rename_config(&rs[i].link, c, &rs[i], rank));
    }
    out
}

fn note_names(out: &mut TextMap<String>, c: &TesterConfig, rs: &Vec<TestResult>, ranked: bool)
    ensures
        named_texts(final(out)@) == noted(
            named_texts(old(out)@),
            *c,
            results(rs@),
            ranked,
            rs@.len() as int,
        ),
{
    let ghost was = named_texts(out@);
    for i in 0..rs.len()
        invariant
            named_texts(out@) == noted(was, *c, results(rs@), ranked, i as int),
    {
        let rank: Option<usize> = if ranked {
            Some(i + 1)
        } else {
            None
        };
        assert(results(rs@)[i as int] == rs@[i as int]@);
        let ghost before = out@;
        let name = rename_config(&rs[i].link, c, &rs[i], rank);
        out.insert(rs[i].link.clone(), name);
        assert(named_texts(out@) =~= named_texts(before).insert(rs@[i as int].link@, name@));
    }
}

/// The new name of each link that is handed on. With both tests, those that
/// passed the test of rates have the name that it gave them; where it tests
/// only what passed the test of delays, nothing else is handed on.
pub open spec fn outputs(c: TesterConfig, ping: Seq<ResultView>, speed: Seq<ResultView>) -> Map<
    Seq<char>,
    Seq<char>,
> {
    let first = if c.ping_test_enabled {
        noted(Map::empty(), c, ping, false, ping.len() as int)
    } else {
        Map::empty()
    };
    if c.speed_test_enabled {
        let kept = if c.speed_test_from_ping_passed_only {
            Map::empty()
        } else {
            first
        };
        noted(kept, c, speed, true, speed.len() as int)
    } else {
        first
    }
}

/// No links under the protocols that were tested; the others stay.
pub open spec fn cleared(data: Map<Seq<char>, Set<Seq<char>>>) -> Map<Seq<char>, Set<Seq<char>>> {
    Map::new(
        |p: Seq<char>| data.contains_key(p),
        |p: Seq<char>|
            if is_mixed(p) {
                Set::empty()
            } else {
                data[p]
            },
    )
}

/// `data`, with the new names of the first `n` links under their protocols.
pub open spec fn placed(
    data: Map<Seq<char>, Set<Seq<char>>>,
    owners: Map<Seq<char>, Seq<char>>,
    out: Map<Seq<char>, Seq<char>>,
    keys: Seq<Seq<char>>,
    n: int,
) -> Map<Seq<char>, Set<Seq<char>>>
    decreases n,
{
    if n <= 0 {
        data
    } else {
        let before = placed(data, owners, out, keys, n - 1);
        if owners.contains_key(keys[n - 1]) {
            with_link(before, owners[keys[n - 1]], out[keys[n - 1]])
        } else {
            before
        }
    }
}

/// How many of the first `n` links have an owner.
pub open spec fn owned(owners: Map<Seq<char>, Seq<char>>, keys: Seq<Seq<char>>, n: int) -> nat
    decreases n,
{
    if n <= 0 {
        0
    } else {
        owned(owners, keys, n - 1) + (if owners.contains_key(keys[n - 1]) {
            1nat
        } else {
            0nat
        })
    }
}

/// What the tests leave of the links: those of the tested protocols are
/// replaced by the links that passed, under their new names.
pub open spec fn merged(
    data: Map<Seq<char>, Set<Seq<char>>>,
    owners: Map<Seq<char>, Seq<char>>,
    out: Map<Seq<char>, Seq<char>>,
) -> Map<Seq<char>, Set<Seq<char>>> {
    placed(cleared(data), owners, out, listing(out.dom()), listing(out.dom()).len() as int)
}

fn clear_tested(configs: &mut TextMap<TextSet>)
    ensures
        contents(final(configs)@) == cleared(contents(old(configs)@)),
{
    let ghost data = contents(configs@);
    let ghost keys = listing(configs@.dom());
    let n: usize = configs.len();
    for i in 0..n
        invariant
            keys == listing(configs@.dom()),
            n == keys.len(),
            keys.to_set() == configs@.dom(),
            contents(configs@).dom() == data.dom(),
            configs@.dom() == data.dom(),
            keys.no_duplicates(),
            forall|k: int|
                0 <= k < n ==> #[trigger] contents(configs@)[keys[k]] == (if k < i && is_mixed(
                    keys[k],
                ) {
                    Set::empty()
                } else {
                    data[keys[k]]
                }),
    {
        let p = configs.key(i);
        if mixes(p) {
            let none = TextSet::new();
            let ghost before = configs@;
            configs.set_value(i, none);
            proof {
                assert(contents(configs@) =~= contents(before).insert(keys[i as int], Set::empty()));
                assert(contents(configs@).dom() =~= data.dom());
            }
        }
    }
    proof {
        assert forall|p: Seq<char>| #[trigger] data.contains_key(p) implies contents(configs@)[p]
            == cleared(data)[p] by {
            assert(keys.to_set().contains(p));
            let k = keys.index_of(p);
            assert(contents(configs@)[keys[k]] == cleared(data)[p]);
        }
        assert(contents(configs@) =~= cleared(data));
    }
}

// ---------------------------------------------------------------------------
// The course of the tests
// ---------------------------------------------------------------------------

/// What a run waits for.
#[derive(Clone, Copy, Debug, PartialEq, Eq, Structural)]
pub enum Stage {
    Input,
    BeforePing,
    Ping,
    BeforeSpeed,
    SpeedInput,
    Speed,
    Over,
}

/// Why a run ends before its results count.
#[derive(Clone, Copy, Debug, PartialEq, Eq, Structural)]
pub enum Ending {
    Disabled,
    NothingToTest,
    BothTestsOff,
    InputNotWritten,
    Stopped,
    Interrupted,
    SpeedInputNotWritten,
}

/// What is to be done next.
#[derive(Clone, Copy, Debug, PartialEq, Eq, Structural)]
pub enum Step {
    WriteInput,
    CheckStop,
    RunPing,
    WriteSpeedInput,
    RunSpeed,
    Merge,
    Quit(Ending),
}

/// What came of the last step: whether the file was written, whether a stop
/// was asked for, or what the test reported, where it ran.
pub enum Reply {
    Written(bool),
    Stopped(bool),
    Ran(Option<Vec<TestResult>>),
}

/// What came of the last step, as plain values.
pub enum ReplyView {
    Written(bool),
    Stopped(bool),
    Ran(Option<Seq<ResultView>>),
}

impl View for Reply {
    type V = ReplyView;

    open spec fn view(&self) -> ReplyView {
        match *self {
            Reply::Written(b) => ReplyView::Written(b),
            Reply::Stopped(b) => ReplyView::Stopped(b),
            Reply::Ran(Some(rs)) => ReplyView::Ran(Some(results(rs@))),
            Reply::Ran(None) => ReplyView::Ran(None),
        }
    }
}

/// A run of the tests.
pub struct Phase2Run {
    pub stage: Stage,
    pub to_test: Vec<String>,
    pub owners: TextMap<String>,
    pub ping: Vec<TestResult>,
    pub speed: Vec<TestResult>,
    pub result: Phase2Result,
}

/// A run of the tests, as plain values.
pub struct RunView {
    pub stage: Stage,
    pub to_test: Seq<Seq<char>>,
    pub owners: Map<Seq<char>, Seq<char>>,
    pub ping: Seq<ResultView>,
    pub speed: Seq<ResultView>,
    pub ping_passed: Set<Seq<char>>,
    pub speed_passed: Set<Seq<char>>,
}

impl View for Phase2Run {
    type V = RunView;

    open spec fn view(&self) -> RunView {
        RunView {
            stage: self.stage,
            to_test: texts(self.to_test@),
            owners: named_texts(self.owners@),
            ping: results(self.ping@),
            speed: results(self.speed@),
            ping_passed: self.result.ping_passed_mixed@,
            speed_passed: self.result.speed_passed_mixed@,
        }
    }
}

/// A run before its first step.
pub open spec fn fresh(data: Map<Seq<char>, Set<Seq<char>>>, stage: Stage) -> RunView {
    RunView {
        stage,
        to_test: tested(data),
        owners: owners_in(data),
        ping: Seq::empty(),
        speed: Seq::empty(),
        ping_passed: Set::empty(),
        speed_passed: Set::empty(),
    }
}

/// The first step: there is one to do where the tester is on, there are links,
/// and at least one of the tests is on.
pub open spec fn first_step(c: TesterConfig, to_test: Seq<Seq<char>>) -> Step {
    if !c.enabled {
        Step::Quit(Ending::Disabled)
    } else if to_test.len() == 0 {
        Step::Quit(Ending::NothingToTest)
    } else if !c.ping_test_enabled && !c.speed_test_enabled {
        Step::Quit(Ending::BothTestsOff)
    } else {
        Step::WriteInput
    }
}

/// The stage that a step leads to when it is the first.
pub open spec fn first_stage(step: Step) -> Stage {
    if step == Step::WriteInput {
        Stage::Input
    } else {
        Stage::Over
    }
}

/// The links of results.
pub open spec fn links_of(rs: Seq<ResultView>) -> Seq<Seq<char>> {
    Seq::new(rs.len(), |i: int| rs[i].link)
}

/// The links whose rate is tested: the first ones of those that passed the
/// test of delays, or else of all.
pub open spec fn speed_targets(c: TesterConfig, v: RunView) -> Seq<Seq<char>> {
    let from = if c.speed_test_from_ping_passed_only && c.ping_test_enabled {
        links_of(v.ping)
    } else {
        v.to_test
    };
    let most = if c.speed_test_top_count < 1 {
        1
    } else {
        c.speed_test_top_count as int
    };
    if from.len() > most {
        from.take(most)
    } else {
        from
    }
}

/// The reply is of the kind that the stage waits for.
pub open spec fn fits(stage: Stage, reply: ReplyView) -> bool {
    match stage {
        Stage::Input | Stage::SpeedInput => reply is Written,
        Stage::BeforePing | Stage::BeforeSpeed => reply is Stopped,
        Stage::Ping | Stage::Speed => reply is Ran,
        Stage::Over => false,
    }
}

/// `v` at another stage.
pub open spec fn at(v: RunView, stage: Stage) -> RunView {
    RunView { stage, ..v }
}

/// What follows a reply.
pub open spec fn next(c: TesterConfig, v: RunView, reply: ReplyView) -> (RunView, Step) {
    match (v.stage, reply) {
        (Stage::Input, ReplyView::Written(true)) => (at(v, Stage::BeforePing), Step::CheckStop),
        (Stage::Input, ReplyView::Written(false)) => (
            at(v, Stage::Over),
            Step::Quit(Ending::InputNotWritten),
        ),
        (Stage::BeforePing, ReplyView::Stopped(true)) => (
            at(v, Stage::Over),
            Step::Quit(Ending::Stopped),
        ),
        (Stage::BeforePing, ReplyView::Stopped(false)) => if c.ping_test_enabled {
            (at(v, Stage::Ping), Step::RunPing)
        } else {
            (at(v, Stage::BeforeSpeed), Step::CheckStop)
        },
        (Stage::Ping, ReplyView::Ran(Some(rs))) => {
            let ping = ping_selection(rs);
            (
                RunView {
                    stage: Stage::BeforeSpeed,
                    ping,
                    ping_passed: new_names(c, ping, false, ping.len() as int),
                    ..v
                },
                Step::CheckStop,
            )
        },
        (Stage::Ping, ReplyView::Ran(None)) => (at(v, Stage::BeforeSpeed), Step::CheckStop),
        (Stage::BeforeSpeed, ReplyView::Stopped(true)) => (
            at(v, Stage::Over),
            Step::Quit(Ending::Interrupted),
        ),
        (Stage::BeforeSpeed, ReplyView::Stopped(false)) => if c.speed_test_enabled
            && speed_targets(c, v).len() > 0 {
            (at(v, Stage::SpeedInput), Step::WriteSpeedInput)
        } else {
            (at(v, Stage::Over), Step::Merge)
        },
        (Stage::SpeedInput, ReplyView::Written(true)) => (at(v, Stage::Speed), Step::RunSpeed),
        (Stage::SpeedInput, ReplyView::Written(false)) => (
            at(v, Stage::Over),
            Step::Quit(Ending::SpeedInputNotWritten),
        ),
        (Stage::Speed, ReplyView::Ran(Some(rs))) => {
            let speed = speed_selection(rs);
            (
                RunView {
                    stage: Stage::Over,
                    speed,
                    speed_passed: new_names(c, speed, true, speed.len() as int),
                    ..v
                },
                Step::Merge,
            )
        },
        _ => (at(v, Stage::Over), Step::Merge),
    }
}

/// The links to test and their owners.
fn survey(configs: &TextMap<TextSet>) -> (r: (Vec<String>, TextMap<String>))
    ensures
        texts(r.0@) == tested(contents(configs@)),
        named_texts(r.1@) == owners_in(contents(configs@)),
{
    let ghost data = contents(configs@);
    let ghost keys = listing(configs@.dom());
    let mut to_test: Vec<String> = Vec::new();
    let mut owners: TextMap<String> = TextMap::new();
    let n: usize = configs.len();
    assert(data.dom() =~= configs@.dom());
    assert(texts(to_test@) =~= tested_from(data, keys, 0));
    assert(named_texts(owners@) =~= owners_from(data, keys, 0));
    for i in 0..n
        invariant
            data == contents(configs@),
            keys == listing(configs@.dom()),
            n == keys.len(),
            texts(to_test@) == tested_from(data, keys, i as int),
            named_texts(owners@) == owners_from(data, keys, i as int),
    {
        let p = configs.key(i);
        let links = configs.value(i);
        assert(data[keys[i as int]] == links@);
        if mixes(p) {
            note_links(&mut to_test, &mut owners, p, links);
        }
    }
    (to_test, owners)
}

impl Phase2Run {
    /// Begins a run of the tests, and says what is to be done first.
    pub fn begin(configs: &TextMap<TextSet>, c: &TesterConfig) -> (r: (Phase2Run, Step))
        ensures
            r.1 == first_step(*c, tested(contents(configs@))),
            r.0@ == fresh(contents(configs@), first_stage(r.1)),
    {
        let (to_test, owners) = survey(configs);
        let step = if !c.enabled {
            Step::Quit(Ending::Disabled)
        } else if to_test.len() == 0 {
            Step::Quit(Ending::NothingToTest)
        } else if !c.ping_test_enabled && !c.speed_test_enabled {
            Step::Quit(Ending::BothTestsOff)
        } else {
            Step::WriteInput
        };
        let stage = match step {
            Step::WriteInput => Stage::Input,
            _ => Stage::Over,
        };
        assert(texts(to_test@).len() == to_test@.len());
        let run = Phase2Run {
            stage,
            to_test,
            owners,
            ping: Vec::new(),
            speed: Vec::new(),
            result: Phase2Result::default(),
        };
        assert(run@.ping =~= Seq::<ResultView>::empty());
        assert(run@.speed =~= Seq::<ResultView>::empty());
        (run, step)
    }

    /// The text of the file with the links to test.
    pub fn input_text(&self) -> (r: String)
        ensures
            r@ == joined(self@.to_test, "\n"@),
    {
        join(&self.to_test, "\n")
    }

    /// The links whose rate is tested.
    pub fn targets(&self, c: &TesterConfig) -> (r: Vec<String>)
        ensures
            texts(r@) == speed_targets(*c, self@),
    {
        let from: Vec<String> = if c.speed_test_from_ping_passed_only && c.ping_test_enabled {
            let mut links: Vec<String> = Vec::new();
            for i in 0..self.ping.len()
                invariant
                    texts(links@) == links_of(results(self.ping@)).take(i as int),
            {
                let ghost before = links@;
                links.push(self.ping[i].link.clone());
                let ghost all = links_of(results(self.ping@));
                assert(texts(links@) =~= texts(before).push(all[i as int]));
                assert(all.take(i + 1) =~= all.take(i as int).push(all[i as int]));
            }
            let ghost all = links_of(results(self.ping@));
            assert(all.take(self.ping@.len() as int) =~= all);
            links
        } else {
            assert(texts(self.to_test@).take(self.to_test@.len() as int) =~= texts(self.to_test@));
            copy_texts(&self.to_test, self.to_test.len())
        };
        let most: usize = if c.speed_test_top_count < 1 {
            1
        } else {
            c.speed_test_top_count
        };
        let n: usize = if from.len() > most {
            most
        } else {
            from.len()
        };
        assert(texts(from@).len() == from@.len());
        assert(texts(from@).take(from@.len() as int) =~= texts(from@));
        copy_texts(&from, n)
    }

    /// The text of the file with the links whose rate is tested.
    pub fn speed_text(&self, c: &TesterConfig) -> (r: String)
        ensures
            r@ == joined(speed_targets(*c, self@), "\n"@),
    {
        join(&self.targets(c), "\n")
    }

    /// Takes what came of the last step, and says what is to be done next.
    pub fn advance(&mut self, c: &TesterConfig, reply: Reply) -> (r: Step)
        requires
            fits(old(self)@.stage, reply@),
        ensures
            (final(self)@, r) == next(*c, old(self)@, reply@),
    {
        let ghost was = self@;
        match (self.stage, reply) {
            (Stage::Input, Reply::Written(ok)) => {
                if ok {
                    self.stage = Stage::BeforePing;
                    Step::CheckStop
                } else {
                    self.stage = Stage::Over;
                    Step::Quit(Ending::InputNotWritten)
                }
            },
            (Stage::BeforePing, Reply::Stopped(stop)) => {
                if stop {
                    self.stage = Stage::Over;
                    Step::Quit(Ending::Stopped)
                } else if c.ping_test_enabled {
                    self.stage = Stage::Ping;
                    Step::RunPing
                } else {
                    self.stage = Stage::BeforeSpeed;
                    Step::CheckStop
                }
            },
            (Stage::Ping, Reply::Ran(ran)) => {
                match ran {
                    Some(rs) => {
                        self.ping = select_ping(&rs);
                        self.result.ping_passed_mixed = rename_all(c, &self.ping, false);
                        assert(results(self.ping@).len() == self.ping@.len());
                    },
                    None => {},
                }
                self.stage = Stage::BeforeSpeed;
                Step::CheckStop
            },
            (Stage::BeforeSpeed, Reply::Stopped(stop)) => {
                if stop {
                    self.stage = Stage::Over;
                    return Step::Quit(Ending::Interrupted);
                }
                let more = c.speed_test_enabled && self.targets(c).len() > 0;
                if more {
                    self.stage = Stage::SpeedInput;
                    Step::WriteSpeedInput
                } else {
                    self.stage = Stage::Over;
                    Step::Merge
                }
            },
            (Stage::SpeedInput, Reply::Written(ok)) => {
                if ok {
                    self.stage = Stage::Speed;
                    Step::RunSpeed
                } else {
                    self.stage = Stage::Over;
                    Step::Quit(Ending::SpeedInputNotWritten)
                }
            },
            (Stage::Speed, Reply::Ran(ran)) => {
                match ran {
                    Some(rs) => {
                        self.speed = select_speed(&rs);
                        self.result.speed_passed_mixed = rename_all(c, &self.speed, true);
                        assert(results(self.speed@).len() == self.speed@.len());
                    },
                    None => {},
                }
                self.stage = Stage::Over;
                Step::Merge
            },
            _ => {
                self.stage = Stage::Over;
                Step::Merge
            },
        }
    }

    fn collect_outputs(&self, c: &TesterConfig) -> (r: TextMap<String>)
        ensures
            named_texts(r@) == outputs(*c, self@.ping, self@.speed),
    {
        let mut out: TextMap<String> = TextMap::new();
        assert(named_texts(out@) =~= Map::<Seq<char>, Seq<char>>::empty());
        assert(results(self.ping@).len() == self.ping@.len());
        assert(results(self.speed@).len() == self.speed@.len());
        if c.ping_test_enabled {
            note_names(&mut out, c, &self.ping, false);
        }
        if c.speed_test_enabled {
            if c.speed_test_from_ping_passed_only {
                out = TextMap::new();
                assert(named_texts(out@) =~= Map::<Seq<char>, Seq<char>>::empty());
            }
            note_names(&mut out, c, &self.speed, true);
        }
        out
    }

    /// Replaces the links of the tested protocols by those that passed, under
    /// their new names; says how many of them there are.
    pub fn merge(&self, configs: &mut TextMap<TextSet>, c: &TesterConfig) -> (r: usize)
        ensures
            contents(final(configs)@) == merged(
                contents(old(configs)@),
                self@.owners,
                outputs(*c, self@.ping, self@.speed),
            ),
            ({
                let out = listing(outputs(*c, self@.ping, self@.speed).dom());
                r == owned(self@.owners, out, out.len() as int)
            }),
    {
        let ghost data = contents(configs@);
        let ghost owners = self@.owners;
        clear_tested(configs);
        let out = self.collect_outputs(c);
        let ghost names = named_texts(out@);
        let ghost keys = listing(out@.dom());
        assert(names.dom() =~= out@.dom());
        let n: usize = out.len();
        let mut passed: usize = 0;
        for i in 0..n
            invariant
                owners == self@.owners,
                names == named_texts(out@),
                keys == listing(out@.dom()),
                n == keys.len(),
                passed <= i,
                passed == owned(owners, keys, i as int),
                contents(configs@) == placed(cleared(data), owners, names, keys, i as int),
        {
            let link = out.key(i);
            let name = out.value(i);
            assert(names[keys[i as int]] == name@);
            match self.owners.get(link) {
                Some(p) => {
                    assert(owners[keys[i as int]] == p@);
                    add_link(configs, p, name.clone());
                    passed += 1;
                },
                None => {},
            }
        }
        passed
    }
}

// ---------------------------------------------------------------------------
// Messages
// ---------------------------------------------------------------------------

/// The word for a truth value.
pub open spec fn truth(b: bool) -> Seq<char> {
    if b {
        "true"@
    } else {
        "false"@
    }
}

fn truth_text(b: bool) -> (r: &'static str)
    ensures
        r@ == truth(b),
{
    if b {
        "true"
    } else {
        "false"
    }
}

/// Only what passed the test of delays is tested for its rate.
pub open spec fn is_chained(c: TesterConfig) -> bool {
    c.speed_test_from_ping_passed_only && c.ping_test_enabled
}

/// Where the links whose rate is tested come from.
pub open spec fn source_name(c: TesterConfig) -> Seq<char> {
    if is_chained(c) {
        "ping-passed"@
    } else {
        "all-phase1"@
    }
}

/// `a - b`, or zero where `b` is more.
pub open spec fn left_over(a: nat, b: nat) -> nat {
    if a > b {
        (a - b) as nat
    } else {
        0
    }
}

/// The message that the tests begin.
pub fn tests_start_event(total: usize, c: &TesterConfig) -> (r: AppEvent)
    ensures
        says(
            r,
            LogLevel::Info,
            "🔬 PHASE 2 START | total="@ + decimal(total as nat) + " | ping="@
                + truth(c.ping_test_enabled) + " | speed="@ + truth(c.speed_test_enabled)
                + " | chain_ping_to_speed="@ + truth(c.speed_test_from_ping_passed_only),
        ),
{
    let mut text = "🔬 PHASE 2 START | total=".to_string();
    push_text(&mut text, &decimal_text(total as u128));
    push_text(&mut text, " | ping=");
    push_text(&mut text, truth_text(c.ping_test_enabled));
    push_text(&mut text, " | speed=");
    push_text(&mut text, truth_text(c.speed_test_enabled));
    push_text(&mut text, " | chain_ping_to_speed=");
    push_text(&mut text, truth_text(c.speed_test_from_ping_passed_only));
    log_worker(LogLevel::Info, text)
}

/// The message that the test of delays begins.
pub fn ping_start_event(c: &TesterConfig) -> (r: AppEvent)
    ensures
        says(
            r,
            LogLevel::Info,
            "📍 Phase2/PING start -> "@ + c.ping_test_url@,
        ),
{
    let mut text = "📍 Phase2/PING start -> ".to_string();
    push_text(&mut text, &c.ping_test_url);
    log_worker(LogLevel::Info, text)
}

/// The message that the test of delays is over.
pub fn ping_done_event(passed: usize, total: usize, millis: u128) -> (r: AppEvent)
    ensures
        says(
            r,
            LogLevel::Success,
            "✅ Phase2/PING done | passed="@ + decimal(passed as nat) + " | removed="@
                + decimal(left_over(total as nat, passed as nat)) + " | elapsed="@
                + decimal(millis as nat) + "ms"@,
        ),
{
    let mut text = "✅ Phase2/PING done | passed=".to_string();
    push_text(&mut text, &decimal_text(passed as u128));
    push_text(&mut text, " | removed=");
    push_text(&mut text, &decimal_text(total.saturating_sub(passed) as u128));
    push_text(&mut text, " | elapsed=");
    push_text(&mut text, &decimal_text(millis));
    push_text(&mut text, "ms");
    log_worker(LogLevel::Success, text)
}

fn source_text(c: &TesterConfig) -> (r: &'static str)
    ensures
        r@ == source_name(*c),
{
    if c.speed_test_from_ping_passed_only && c.ping_test_enabled {
        "ping-passed"
    } else {
        "all-phase1"
    }
}

/// The message that the rates of so many links are to be tested.
pub fn targets_event(targets: usize, c: &TesterConfig) -> (r: AppEvent)
    ensures
        says(
            r,
            LogLevel::Info,
            "📦 Phase2/SPEED targets="@ + decimal(targets as nat) + " | source="@ + source_name(*c)
                + " | remaining_after_speed=depends_on_results"@,
        ),
{
    let mut text = "📦 Phase2/SPEED targets=".to_string();
    push_text(&mut text, &decimal_text(targets as u128));
    push_text(&mut text, " | source=");
    push_text(&mut text, source_text(c));
    push_text(&mut text, " | remaining_after_speed=depends_on_results");
    log_worker(LogLevel::Info, text)
}

/// The message that the test of rates begins.
pub fn speed_start_event(c: &TesterConfig) -> (r: AppEvent)
    requires
        asks_for_bytes(*c) ==> c.speed_test_amount_kb * 1024 <= u32::MAX,
    ensures
        says(
            r,
            LogLevel::Info,
            "🚀 Phase2/SPEED start -> "@ + speed_address(*c),
        ),
{
    let mut text = "🚀 Phase2/SPEED start -> ".to_string();
    push_text(&mut text, &speed_url(c));
    log_worker(LogLevel::Info, text)
}

/// The message that the test of rates is over.
pub fn speed_done_event(passed: usize, targets: usize, millis: u128) -> (r: AppEvent)
    ensures
        says(
            r,
            LogLevel::Success,
            "✅ Phase2/SPEED done | passed="@ + decimal(passed as nat) + " | removed="@
                + decimal(left_over(targets as nat, passed as nat)) + " | elapsed="@
                + decimal(millis as nat) + "ms"@,
        ),
{
    let mut text = "✅ Phase2/SPEED done | passed=".to_string();
    push_text(&mut text, &decimal_text(passed as u128));
    push_text(&mut text, " | removed=");
    push_text(&mut text, &decimal_text(targets.saturating_sub(passed) as u128));
    push_text(&mut text, " | elapsed=");
    push_text(&mut text, &decimal_text(millis));
    push_text(&mut text, "ms");
    log_worker(LogLevel::Success, text)
}

/// The message that the tests are over: how many links are handed on, of how
/// many.
pub fn tests_done_event(passed: usize, total: usize) -> (r: AppEvent)
    ensures
        says(
            r,
            LogLevel::Success,
            "🏁 PHASE 2 COMPLETE | final_passed_unique="@ + decimal(passed as nat) + "/"@
                + decimal(total as nat),
        ),
{
    let mut text = "🏁 PHASE 2 COMPLETE | final_passed_unique=".to_string();
    push_text(&mut text, &decimal_text(passed as u128));
    push_text(&mut text, "/");
    push_text(&mut text, &decimal_text(total as u128));
    log_worker(LogLevel::Success, text)
}

/// The level and the text of the message with which a run ends early, where it
/// has one.
pub open spec fn ending_message(e: Ending) -> Option<(LogLevel, Seq<char>)> {
    match e {
        Ending::Disabled | Ending::NothingToTest | Ending::Stopped => None,
        Ending::BothTestsOff => Some(
            (LogLevel::Warning, "⚠️ Tester enabled but Ping/Speed are disabled."@),
        ),
        Ending::InputNotWritten => Some(
            (LogLevel::Error, "❌ Failed to create test input file."@),
        ),
        Ending::Interrupted => Some((LogLevel::Warning, "🛑 Tester interrupted."@)),
        Ending::SpeedInputNotWritten => Some(
            (LogLevel::Error, "❌ Failed to create speed candidates file."@),
        ),
    }
}

/// The message with which a run ends early, where it has one.
pub fn ending_event(e: Ending) -> (r: Option<AppEvent>)
    ensures
        match ending_message(e) {
            Some(m) => r matches Some(event) && says(event, m.0, m.1),
            None => r is None,
        },
{
    let (level, text) = match e {
        Ending::Disabled | Ending::NothingToTest | Ending::Stopped => {
            return None;
        },
        Ending::BothTestsOff => (
            LogLevel::Warning,
            "⚠️ Tester enabled but Ping/Speed are disabled.",
        ),
        Ending::InputNotWritten => (LogLevel::Error, "❌ Failed to create test input file."),
        Ending::Interrupted => (LogLevel::Warning, "🛑 Tester interrupted."),
        Ending::SpeedInputNotWritten => (
            LogLevel::Error,
            "❌ Failed to create speed candidates file.",
        ),
    };
    Some(log_worker(level, text.to_string()))
}

/// The message that no rates are tested because no link passed the test of
/// delays, where that is so.
pub fn skip_event(run: &Phase2Run, c: &TesterConfig) -> (r: Option<AppEvent>)
    ensures
        if c.speed_test_enabled && is_chained(*c) && run@.ping.len() == 0 {
            r matches Some(event) && says(
                event,
                LogLevel::Warning,
                "⚠️ Chain Mode is ON but Ping found 0 configs. Skipping Speed test."@,
            )
        } else {
            r is None
        },
{
    assert(run@.ping.len() == run.ping@.len());
    if c.speed_test_enabled && c.speed_test_from_ping_passed_only && c.ping_test_enabled
        && run.ping.len() == 0 {
        Some(
            log_worker(
                LogLevel::Warning,
                "⚠️ Chain Mode is ON but Ping found 0 configs. Skipping Speed test.".to_string(),
            ),
        )
    } else {
        None
    }
}

// ---------------------------------------------------------------------------
// Laws
// ---------------------------------------------------------------------------

proof fn lemma_timed(rs: Seq<ResultView>, r: ResultView)
    ensures
        timed(rs).contains(r) <==> rs.contains(r) && r.delay_ms is Some,
    decreases rs.len(),
{
    if rs.len() > 0 {
        let less = rs.drop_last();
        lemma_timed(less, r);
        if timed(rs).contains(r) {
            let k = timed(rs).index_of(r);
            if rs.last().delay_ms is Some {
                if k < timed(less).len() {
                    assert(timed(less)[k] == r);
                } else {
                    assert(rs[rs.len() - 1] == r);
                }
            }
            if less.contains(r) {
                assert(rs[less.index_of(r)] == r);
            }
        }
        if rs.contains(r) && r.delay_ms is Some {
            let k = rs.index_of(r);
            if k < less.len() {
                assert(less[k] == r);
                let m = timed(less).index_of(r);
                assert(timed(rs)[m] == r);
            } else {
                assert(timed(rs)[timed(less).len() as int] == r);
            }
        }
    } else {
        assert(!timed(rs).contains(r));
    }
}

proof fn lemma_rated(rs: Seq<ResultView>, r: ResultView)
    ensures
        rated(rs).contains(r) <==> rs.contains(r) && rank_of(r) > 0,
    decreases rs.len(),
{
    if rs.len() > 0 {
        let less = rs.drop_last();
        lemma_rated(less, r);
        if rated(rs).contains(r) {
            let k = rated(rs).index_of(r);
            if rank_of(rs.last()) > 0 {
                if k < rated(less).len() {
                    assert(rated(less)[k] == r);
                } else {
                    assert(rs[rs.len() - 1] == r);
                }
            }
            if less.contains(r) {
                assert(rs[less.index_of(r)] == r);
            }
        }
        if rs.contains(r) && rank_of(r) > 0 {
            let k = rs.index_of(r);
            if k < less.len() {
                assert(less[k] == r);
                let m = rated(less).index_of(r);
                assert(rated(rs)[m] == r);
            } else {
                assert(rated(rs)[rated(less).len() as int] == r);
            }
        }
    } else {
        assert(!rated(rs).contains(r));
    }
}

proof fn lemma_arranged_members(items: Seq<ResultView>, keys: Seq<int>, r: ResultView)
    requires
        keys.len() == items.len(),
    ensures
        arranged(items, keys).contains(r) <==> items.contains(r),
{
    arrangement_is_stable(keys);
    let order = arrangement(keys);
    let out = arranged(items, keys);
    if out.contains(r) {
        let k = out.index_of(r);
        assert(items[order[k]] == r);
    }
    if items.contains(r) {
        let m = items.index_of(r);
        assert(order.contains(m));
        let k = order.index_of(m);
        assert(out[k] == r);
    }
}

/// The test of delays hands on every result that has a delay and no other, a
/// shorter delay never behind a longer one.
pub proof fn ping_selection_is_ordered(rs: Seq<ResultView>)
    ensures
        forall|r: ResultView| #[trigger]
            ping_selection(rs).contains(r) <==> rs.contains(r) && r.delay_ms is Some,
        ping_selection(rs).len() == timed(rs).len(),
        forall|i: int, j: int|
            0 <= i < j < ping_selection(rs).len() ==> (#[trigger] ping_selection(rs)[i]).delay_ms->0
                <= (#[trigger] ping_selection(rs)[j]).delay_ms->0,
{
    let items = timed(rs);
    let keys = delays(items);
    arrangement_is_stable(keys);
    assert forall|r: ResultView| #[trigger]
        ping_selection(rs).contains(r) <==> rs.contains(r) && r.delay_ms is Some by {
        lemma_timed(rs, r);
        lemma_arranged_members(items, keys, r);
    }
    let order = arrangement(keys);
    assert forall|i: int, j: int| 0 <= i < j < ping_selection(rs).len() implies (
    #[trigger] ping_selection(rs)[i]).delay_ms->0 <= (
    #[trigger] ping_selection(rs)[j]).delay_ms->0 by {
        assert(keys[order[i]] <= keys[order[j]]);
    }
}

/// The test of rates hands on every result with a rate above zero and no
/// other, a higher rate never behind a lower one.
pub proof fn speed_selection_is_ordered(rs: Seq<ResultView>)
    ensures
        forall|r: ResultView| #[trigger]
            speed_selection(rs).contains(r) <==> rs.contains(r) && rank_of(r) > 0,
        speed_selection(rs).len() == rated(rs).len(),
        forall|i: int, j: int|
            0 <= i < j < speed_selection(rs).len() ==> rank_of(#[trigger] speed_selection(rs)[i])
                >= rank_of(#[trigger] speed_selection(rs)[j]),
{
    let items = rated(rs);
    let keys = shortfalls(items);
    arrangement_is_stable(keys);
    assert forall|r: ResultView| #[trigger]
        speed_selection(rs).contains(r) <==> rs.contains(r) && rank_of(r) > 0 by {
        lemma_rated(rs, r);
        lemma_arranged_members(items, keys, r);
    }
    let order = arrangement(keys);
    assert forall|i: int, j: int| 0 <= i < j < speed_selection(rs).len() implies rank_of(
        #[trigger] speed_selection(rs)[i],
    ) >= rank_of(#[trigger] speed_selection(rs)[j]) by {
        assert(keys[order[i]] <= keys[order[j]]);
    }
}

proof fn lemma_owners(
    data: Map<Seq<char>, Set<Seq<char>>>,
    keys: Seq<Seq<char>>,
    n: int,
    l: Seq<char>,
)
    requires
        0 <= n <= keys.len(),
    ensures
        owners_from(data, keys, n).contains_key(l) <==> exists|i: int|
            0 <= i < n && is_mixed(#[trigger] keys[i]) && data[keys[i]].contains(l),
        owners_from(data, keys, n).contains_key(l) ==> is_mixed(owners_from(data, keys, n)[l])
            && keys.contains(owners_from(data, keys, n)[l]) && data[owners_from(
            data,
            keys,
            n,
        )[l]].contains(l),
    decreases n,
{
    if n > 0 {
        lemma_owners(data, keys, n - 1, l);
        let before = owners_from(data, keys, n - 1);
        let k = keys[n - 1];
        assert(keys.contains(k));
        if owners_from(data, keys, n).contains_key(l) {
            if before.contains_key(l) {
                let i = choose|i: int|
                    0 <= i < n - 1 && is_mixed(#[trigger] keys[i]) && data[keys[i]].contains(l);
                assert(0 <= i < n && is_mixed(keys[i]) && data[keys[i]].contains(l));
            } else {
                assert(is_mixed(keys[n - 1]) && data[keys[n - 1]].contains(l));
            }
        }
    }
}

/// A link has an owner where a tested protocol holds it, and its owner is such
/// a protocol.
pub proof fn owners_hold_their_links(data: Map<Seq<char>, Set<Seq<char>>>, l: Seq<char>)
    requires
        data.dom().finite(),
    ensures
        owners_in(data).contains_key(l) <==> exists|p: Seq<char>| #[trigger]
            data.contains_key(p) && is_mixed(p) && data[p].contains(l),
        owners_in(data).contains_key(l) ==> data.contains_key(owners_in(data)[l]) && is_mixed(
            owners_in(data)[l],
        ) && data[owners_in(data)[l]].contains(l),
{
    let keys = listing(data.dom());
    listing_holds_the_members(data.dom());
    lemma_owners(data, keys, keys.len() as int, l);
    if owners_in(data).contains_key(l) {
        assert(keys.to_set().contains(owners_in(data)[l]));
    }
    if exists|p: Seq<char>| #[trigger]
        data.contains_key(p) && is_mixed(p) && data[p].contains(l) {
        let p = choose|p: Seq<char>| #[trigger]
            data.contains_key(p) && is_mixed(p) && data[p].contains(l);
        assert(keys.to_set().contains(p));
        let i = keys.index_of(p);
        assert(is_mixed(keys[i]) && data[keys[i]].contains(l));
    }
}

proof fn lemma_placed(
    data: Map<Seq<char>, Set<Seq<char>>>,
    owners: Map<Seq<char>, Seq<char>>,
    out: Map<Seq<char>, Seq<char>>,
    keys: Seq<Seq<char>>,
    n: int,
    p: Seq<char>,
    l: Seq<char>,
)
    requires
        0 <= n <= keys.len(),
    ensures
        links_under(placed(data, owners, out, keys, n), p).contains(l) <==> links_under(
            data,
            p,
        ).contains(l) || exists|i: int|
            0 <= i < n && owners.contains_key(#[trigger] keys[i]) && owners[keys[i]] == p
                && out[keys[i]] == l,
    decreases n,
{
    if n > 0 {
        lemma_placed(data, owners, out, keys, n - 1, p, l);
        let before = placed(data, owners, out, keys, n - 1);
        if links_under(placed(data, owners, out, keys, n), p).contains(l) {
            if links_under(before, p).contains(l) {
                if !links_under(data, p).contains(l) {
                    let i = choose|i: int|
                        0 <= i < n - 1 && owners.contains_key(#[trigger] keys[i])
                            && owners[keys[i]] == p && out[keys[i]] == l;
                    assert(0 <= i < n && owners.contains_key(keys[i]));
                }
            } else {
                assert(owners.contains_key(keys[n - 1]) && owners[keys[n - 1]] == p && out[keys[n
                    - 1]] == l);
            }
        }
    }
}

/// After the tests a protocol holds the new names of the links handed on that
/// it owns, and beside them only what was not tested.
pub proof fn merging_keeps_what_passed(
    data: Map<Seq<char>, Set<Seq<char>>>,
    owners: Map<Seq<char>, Seq<char>>,
    out: Map<Seq<char>, Seq<char>>,
    p: Seq<char>,
    l: Seq<char>,
)
    requires
        out.dom().finite(),
    ensures
        links_under(merged(data, owners, out), p).contains(l) <==> (!is_mixed(p) && links_under(
            data,
            p,
        ).contains(l)) || exists|o: Seq<char>| #[trigger]
            out.contains_key(o) && owners.contains_key(o) && owners[o] == p && out[o] == l,
{
    let keys = listing(out.dom());
    let n = keys.len() as int;
    listing_holds_the_members(out.dom());
    lemma_placed(cleared(data), owners, out, keys, n, p, l);
    if exists|i: int|
        0 <= i < n && owners.contains_key(#[trigger] keys[i]) && owners[keys[i]] == p
            && out[keys[i]] == l {
        let i = choose|i: int|
            0 <= i < n && owners.contains_key(#[trigger] keys[i]) && owners[keys[i]] == p
                && out[keys[i]] == l;
        assert(keys.to_set().contains(keys[i]));
        assert(out.contains_key(keys[i]));
    }
    if exists|o: Seq<char>| #[trigger]
        out.contains_key(o) && owners.contains_key(o) && owners[o] == p && out[o] == l {
        let o = choose|o: Seq<char>| #[trigger]
            out.contains_key(o) && owners.contains_key(o) && owners[o] == p && out[o] == l;
        assert(keys.to_set().contains(o));
        let i = keys.index_of(o);
        assert(owners.contains_key(keys[i]));
    }
}

/// The protocols that are not tested keep their links.
pub proof fn untested_protocols_stay(
    data: Map<Seq<char>, Set<Seq<char>>>,
    out: Map<Seq<char>, Seq<char>>,
    p: Seq<char>,
)
    requires
        data.dom().finite(),
        out.dom().finite(),
        !is_mixed(p),
    ensures
        links_under(merged(data, owners_in(data), out), p) == links_under(data, p),
{
    let after = links_under(merged(data, owners_in(data), out), p);
    assert forall|l: Seq<char>| after.contains(l) <==> links_under(data, p).contains(l) by {
        merging_keeps_what_passed(data, owners_in(data), out, p, l);
        if exists|o: Seq<char>| #[trigger]
            out.contains_key(o) && owners_in(data).contains_key(o) && owners_in(data)[o] == p
                && out[o] == l {
            let o = choose|o: Seq<char>| #[trigger]
                out.contains_key(o) && owners_in(data).contains_key(o) && owners_in(data)[o] == p
                    && out[o] == l;
            owners_hold_their_links(data, o);
        }
    }
    assert(after =~= links_under(data, p));
}

proof fn lemma_noted(
    m: Map<Seq<char>, Seq<char>>,
    c: TesterConfig,
    rs: Seq<ResultView>,
    ranked: bool,
    n: int,
    l: Seq<char>,
)
    requires
        0 <= n <= rs.len(),
    ensures
        noted(m, c, rs, ranked, n).contains_key(l) <==> m.contains_key(l) || exists|i: int|
            0 <= i < n && (#[trigger] rs[i]).link == l,
        m.dom().finite() ==> noted(m, c, rs, ranked, n).dom().finite(),
    decreases n,
{
    if n > 0 {
        lemma_noted(m, c, rs, ranked, n - 1, l);
        if noted(m, c, rs, ranked, n).contains_key(l) && !m.contains_key(l) {
            if noted(m, c, rs, ranked, n - 1).contains_key(l) {
                let i = choose|i: int| 0 <= i < n - 1 && (#[trigger] rs[i]).link == l;
                assert(0 <= i < n && rs[i].link == l);
            } else {
                assert(rs[n - 1].link == l);
            }
        }
    }
}

/// The links handed on are those that passed a test that counts; where only
/// what passed the test of delays is tested for its rate, those with a rate.
pub proof fn only_what_passed_is_handed_on(
    c: TesterConfig,
    ping: Seq<ResultView>,
    speed: Seq<ResultView>,
    l: Seq<char>,
)
    ensures
        outputs(c, ping, speed).dom().finite(),
        outputs(c, ping, speed).contains_key(l) <==> (c.speed_test_enabled && links_of(
            speed,
        ).contains(l)) || (c.ping_test_enabled && !(c.speed_test_enabled
            && c.speed_test_from_ping_passed_only) && links_of(ping).contains(l)),
{
    let none = Map::<Seq<char>, Seq<char>>::empty();
    let first = if c.ping_test_enabled {
        noted(none, c, ping, false, ping.len() as int)
    } else {
        none
    };
    let kept = if c.speed_test_from_ping_passed_only {
        none
    } else {
        first
    };
    lemma_noted(none, c, ping, false, ping.len() as int, l);
    lemma_noted(kept, c, speed, true, speed.len() as int, l);
    lemma_links(ping, l);
    lemma_links(speed, l);
}

proof fn lemma_links(rs: Seq<ResultView>, l: Seq<char>)
    ensures
        links_of(rs).contains(l) <==> exists|i: int|
            0 <= i < rs.len() && (#[trigger] rs[i]).link == l,
{
    if links_of(rs).contains(l) {
        let k = links_of(rs).index_of(l);
        assert(rs[k].link == l);
    }
    if exists|i: int| 0 <= i < rs.len() && (#[trigger] rs[i]).link == l {
        let i = choose|i: int| 0 <= i < rs.len() && (#[trigger] rs[i]).link == l;
        assert(links_of(rs)[i] == l);
    }
}

/// No more links are tested for their rate than the settings ask for, and at
/// least one where there is any.
pub proof fn rate_tests_are_limited(c: TesterConfig, v: RunView)
    ensures
        speed_targets(c, v).len() <= (if c.speed_test_top_count < 1 {
            1
        } else {
            c.speed_test_top_count as int
        }),
        v.to_test.len() > 0 && !c.speed_test_from_ping_passed_only ==> speed_targets(c, v).len()
            > 0,
{
}

/// The links whose rate is tested are the first of the candidates: of those that
/// passed the test of delays, in their order, where only these are tested, and
/// else of all. There are as many as the settings ask for, at least one, or all
/// candidates where there are fewer.
pub proof fn rates_are_tested_of_the_first_candidates(c: TesterConfig, v: RunView)
    ensures
        ({
            let t = speed_targets(c, v);
            let chained = c.speed_test_from_ping_passed_only && c.ping_test_enabled;
            let n = if chained {
                v.ping.len()
            } else {
                v.to_test.len()
            };
            &&& t.len() <= n
            &&& c.speed_test_top_count >= 1 ==> t.len() <= c.speed_test_top_count
            &&& c.speed_test_top_count == 0 ==> t.len() <= 1
            &&& t.len() == n || t.len() == c.speed_test_top_count || (c.speed_test_top_count == 0
                && t.len() == 1)
            &&& chained ==> forall|i: int| 0 <= i < t.len() ==> #[trigger] t[i] == v.ping[i].link
            &&& !chained ==> forall|i: int| 0 <= i < t.len() ==> #[trigger] t[i] == v.to_test[i]
        }),
{
}

proof fn lemma_names_held(
    c: TesterConfig,
    rs: Seq<ResultView>,
    ranked: bool,
    n: int,
    i: int,
)
    requires
        0 <= i < n <= rs.len() <= usize::MAX,
    ensures
        ranked ==> new_names(c, rs, ranked, n).contains(
            renamed(rs[i].link, c, rs[i], Some((i + 1) as usize)),
        ),
        !ranked ==> new_names(c, rs, ranked, n).contains(renamed(rs[i].link, c, rs[i], None)),
    decreases n,
{
    if i < n - 1 {
        lemma_names_held(c, rs, ranked, n - 1, i);
    }
}

/// The result at position `i` of the results ordered by their rates is named as
/// the one in place `i + 1`, and that of the test of delays without a place.
pub proof fn places_count_from_one(c: TesterConfig, rs: Seq<ResultView>, i: int)
    requires
        0 <= i < rs.len() <= usize::MAX,
    ensures
        new_names(c, rs, true, rs.len() as int).contains(
            renamed(rs[i].link, c, rs[i], Some((i + 1) as usize)),
        ),
        new_names(c, rs, false, rs.len() as int).contains(renamed(rs[i].link, c, rs[i], None)),
{
    lemma_names_held(c, rs, true, rs.len() as int, i);
    lemma_names_held(c, rs, false, rs.len() as int, i);
}

proof fn lemma_noted_last(
    m: Map<Seq<char>, Seq<char>>,
    c: TesterConfig,
    rs: Seq<ResultView>,
    ranked: bool,
    n: int,
    i: int,
)
    requires
        0 <= i < n <= rs.len() <= usize::MAX,
        forall|j: int| i < j < n ==> (#[trigger] rs[j]).link != rs[i].link,
    ensures
        noted(m, c, rs, ranked, n).contains_key(rs[i].link),
        ranked ==> noted(m, c, rs, ranked, n)[rs[i].link] == renamed(
            rs[i].link,
            c,
            rs[i],
            Some((i + 1) as usize),
        ),
        !ranked ==> noted(m, c, rs, ranked, n)[rs[i].link] == renamed(rs[i].link, c, rs[i], None),
    decreases n,
{
    if i < n - 1 {
        assert(rs[n - 1].link != rs[i].link);
        lemma_noted_last(m, c, rs, ranked, n - 1, i);
    }
}

proof fn lemma_noted_keeps(
    m: Map<Seq<char>, Seq<char>>,
    c: TesterConfig,
    rs: Seq<ResultView>,
    ranked: bool,
    n: int,
    l: Seq<char>,
)
    requires
        0 <= n <= rs.len(),
        forall|j: int| 0 <= j < n ==> (#[trigger] rs[j]).link != l,
        m.contains_key(l),
    ensures
        noted(m, c, rs, ranked, n).contains_key(l),
        noted(m, c, rs, ranked, n)[l] == m[l],
    decreases n,
{
    if n > 0 {
        assert(rs[n - 1].link != l);
        lemma_noted_keeps(m, c, rs, ranked, n - 1, l);
    }
}

/// A link that passed the test of rates is handed on under the name with its
/// place among the rates, counted from one; where a link has several results, the
/// last one counts.
pub proof fn rated_links_are_handed_on_with_their_place(
    c: TesterConfig,
    ping: Seq<ResultView>,
    speed: Seq<ResultView>,
    i: int,
)
    requires
        c.speed_test_enabled,
        0 <= i < speed.len() <= usize::MAX,
        forall|j: int| i < j < speed.len() ==> (#[trigger] speed[j]).link != speed[i].link,
    ensures
        outputs(c, ping, speed).contains_key(speed[i].link),
        outputs(c, ping, speed)[speed[i].link] == renamed(
            speed[i].link,
            c,
            speed[i],
            Some((i + 1) as usize),
        ),
{
    let first = if c.ping_test_enabled {
        noted(Map::empty(), c, ping, false, ping.len() as int)
    } else {
        Map::empty()
    };
    let kept = if c.speed_test_from_ping_passed_only {
        Map::empty()
    } else {
        first
    };
    lemma_noted_last(kept, c, speed, true, speed.len() as int, i);
}

/// A link that passed only the test of delays is handed on without a place,
/// where links without a rate are handed on at all.
pub proof fn timed_links_are_handed_on_without_a_place(
    c: TesterConfig,
    ping: Seq<ResultView>,
    speed: Seq<ResultView>,
    i: int,
)
    requires
        c.ping_test_enabled,
        !(c.speed_test_enabled && c.speed_test_from_ping_passed_only),
        0 <= i < ping.len() <= usize::MAX,
        forall|j: int| i < j < ping.len() ==> (#[trigger] ping[j]).link != ping[i].link,
        c.speed_test_enabled ==> forall|j: int|
            0 <= j < speed.len() ==> (#[trigger] speed[j]).link != ping[i].link,
    ensures
        outputs(c, ping, speed).contains_key(ping[i].link),
        outputs(c, ping, speed)[ping[i].link] == renamed(ping[i].link, c, ping[i], None),
{
    let none = Map::<Seq<char>, Seq<char>>::empty();
    let first = noted(none, c, ping, false, ping.len() as int);
    lemma_noted_last(none, c, ping, false, ping.len() as int, i);
    if c.speed_test_enabled {
        lemma_noted_keeps(first, c, speed, true, speed.len() as int, ping[i].link);
    }
}

proof fn lemma_tested(
    data: Map<Seq<char>, Set<Seq<char>>>,
    keys: Seq<Seq<char>>,
    n: int,
    l: Seq<char>,
)
    requires
        0 <= n <= keys.len(),
        forall|i: int| 0 <= i < keys.len() ==> data[#[trigger] keys[i]].finite(),
    ensures
        tested_from(data, keys, n).contains(l) <==> exists|i: int|
            0 <= i < n && is_mixed(#[trigger] keys[i]) && data[keys[i]].contains(l),
    decreases n,
{
    if n > 0 {
        lemma_tested(data, keys, n - 1, l);
        let before = tested_from(data, keys, n - 1);
        let now = tested_from(data, keys, n);
        let k = keys[n - 1];
        let own = listing(data[k]);
        assert(data[k].finite());
        listing_holds_the_members(data[k]);
        assert(own.to_set().contains(l) <==> own.contains(l));
        if now.contains(l) {
            let m = now.index_of(l);
            if m < before.len() {
                assert(before[m] == l);
                let i = choose|i: int|
                    0 <= i < n - 1 && is_mixed(#[trigger] keys[i]) && data[keys[i]].contains(l);
                assert(0 <= i < n && is_mixed(keys[i]));
            } else {
                assert(own[m - before.len()] == l);
                assert(is_mixed(keys[n - 1]));
            }
        }
        if exists|i: int| 0 <= i < n && is_mixed(#[trigger] keys[i]) && data[keys[i]].contains(l) {
            let i = choose|i: int|
                0 <= i < n && is_mixed(#[trigger] keys[i]) && data[keys[i]].contains(l);
            if i < n - 1 {
                assert(before.contains(l));
                let m = before.index_of(l);
                assert(now[m] == l);
            } else {
                let m = own.index_of(l);
                assert(now[before.len() + m] == l);
            }
        }
    } else {
        assert(!tested_from(data, keys, n).contains(l));
    }
}

/// The links to test are those of the protocols that go into the common file, none
/// left out and none beside.
pub proof fn common_protocols_are_tested(data: Map<Seq<char>, Set<Seq<char>>>, l: Seq<char>)
    requires
        data.dom().finite(),
        forall|p: Seq<char>| #[trigger] data.contains_key(p) ==> data[p].finite(),
    ensures
        tested(data).contains(l) <==> exists|p: Seq<char>| #[trigger]
            data.contains_key(p) && is_mixed(p) && data[p].contains(l),
{
    let keys = listing(data.dom());
    listing_holds_the_members(data.dom());
    assert forall|i: int| 0 <= i < keys.len() implies data[#[trigger] keys[i]].finite() by {
        assert(keys.to_set().contains(keys[i]));
        assert(data.contains_key(keys[i]));
    }
    lemma_tested(data, keys, keys.len() as int, l);
    if tested(data).contains(l) {
        let i = choose|i: int|
            0 <= i < keys.len() && is_mixed(#[trigger] keys[i]) && data[keys[i]].contains(l);
        assert(keys.to_set().contains(keys[i]));
        assert(data.contains_key(keys[i]));
    }
    if exists|p: Seq<char>| #[trigger]
        data.contains_key(p) && is_mixed(p) && data[p].contains(l) {
        let p = choose|p: Seq<char>| #[trigger]
            data.contains_key(p) && is_mixed(p) && data[p].contains(l);
        assert(keys.to_set().contains(p));
        let i = keys.index_of(p);
        assert(is_mixed(keys[i]) && data[keys[i]].contains(l));
    }
}

/// A run goes from the input to the test of delays and then to that of rates, each
/// where it is switched on, and then counts its results; a stop, or a file that
/// cannot be written, ends it before, and a test that does not run brings nothing
/// but ends nothing.
pub proof fn runs_take_their_course(c: TesterConfig, v: RunView, rs: Seq<ResultView>)
    ensures
        ({
            let go = ReplyView::Stopped(false);
            let halt = ReplyView::Stopped(true);
            let failed = ReplyView::Ran(None);
            &&& v.stage == Stage::Input ==> next(c, v, ReplyView::Written(true)).1
                == Step::CheckStop && next(c, v, ReplyView::Written(false)).1 == Step::Quit(
                Ending::InputNotWritten,
            )
            &&& v.stage == Stage::BeforePing ==> next(c, v, halt).1 == Step::Quit(Ending::Stopped)
                && (next(c, v, go).1 == Step::RunPing <==> c.ping_test_enabled)
            &&& v.stage == Stage::BeforePing && !c.ping_test_enabled ==> next(c, v, go).1
                == Step::CheckStop && next(c, v, go).0.stage == Stage::BeforeSpeed
            &&& v.stage == Stage::Ping ==> next(c, v, failed).1 == Step::CheckStop && next(
                c,
                v,
                failed,
            ).0.ping == v.ping && next(c, v, ReplyView::Ran(Some(rs))).1 == Step::CheckStop
            &&& v.stage == Stage::BeforeSpeed ==> next(c, v, halt).1 == Step::Quit(
                Ending::Interrupted,
            ) && (next(c, v, go).1 == Step::WriteSpeedInput <==> c.speed_test_enabled
                && speed_targets(c, v).len() > 0) && (next(c, v, go).1 == Step::Merge
                <==> !(c.speed_test_enabled && speed_targets(c, v).len() > 0))
            &&& v.stage == Stage::SpeedInput ==> next(c, v, ReplyView::Written(true)).1
                == Step::RunSpeed && next(c, v, ReplyView::Written(false)).1 == Step::Quit(
                Ending::SpeedInputNotWritten,
            )
            &&& v.stage == Stage::Speed ==> next(c, v, failed).1 == Step::Merge && next(
                c,
                v,
                failed,
            ).0.speed == v.speed && next(c, v, ReplyView::Ran(Some(rs))).1 == Step::Merge
            &&& v.stage == Stage::Ping ==> forall|r: ResultView| #[trigger]
                next(c, v, ReplyView::Ran(Some(rs))).0.ping.contains(r) <==> rs.contains(r)
                    && r.delay_ms is Some
            &&& v.stage == Stage::Speed ==> forall|r: ResultView| #[trigger]
                next(c, v, ReplyView::Ran(Some(rs))).0.speed.contains(r) <==> rs.contains(r)
                    && rank_of(r) > 0
        }),
{
    ping_selection_is_ordered(rs);
    speed_selection_is_ordered(rs);
}

} // verus!
