//! What holds of every resolution, whatever the system answers.

use vstd::prelude::*;
use crate::address::IpAddress;
use crate::error::ErrorModel;
use crate::hint::ResolutionHint;
use crate::literal::{address, text_of};
use crate::resolution::{collected, step, ReplyModel, StageModel};

verus! {

/// The stage that a sequence of answers leads to.
pub open spec fn run(stage: StageModel, replies: Seq<ReplyModel>) -> StageModel
    decreases replies.len(),
{
    if replies.len() == 0 {
        stage
    } else {
        step(run(stage, replies.drop_last()), replies.last())
    }
}

/// Whether a lookup handed over a list in the course of the answers.
pub open spec fn handed_over(stage: StageModel, replies: Seq<ReplyModel>) -> bool
    decreases replies.len(),
{
    if replies.len() == 0 {
        false
    } else {
        let before = replies.drop_last();
        handed_over(stage, before) || (run(stage, before) is Lookup && replies.last() is Lookup
            && replies.last()->list)
    }
}

/// How often the list was released on request in the course of the answers.
pub open spec fn releases(stage: StageModel, replies: Seq<ReplyModel>) -> nat
    decreases replies.len(),
{
    if replies.len() == 0 {
        0
    } else {
        let before = replies.drop_last();
        let now: nat = if run(stage, before) is Release && replies.last() is Released {
            1
        } else {
            0
        };
        releases(stage, before) + now
    }
}

/// The addresses that a walk reads from the buffers of its nodes: those whose
/// text is an address, in the order of the nodes.
pub open spec fn addresses(datas: Seq<Seq<u8>>) -> Seq<IpAddress>
    decreases datas.len(),
{
    if datas.len() == 0 {
        Seq::empty()
    } else {
        collected(addresses(datas.drop_last()), datas.last())
    }
}

/// The answer of a lookup that succeeded and handed over a list.
pub open spec fn found_list() -> ReplyModel {
    ReplyModel::Lookup { status: 0, list: true }
}

/// The answers of nodes that were all rendered without failure; `closed`
/// tells whether the last of them is the last node of the list.
pub open spec fn rendered(datas: Seq<Seq<u8>>, closed: bool) -> Seq<ReplyModel> {
    Seq::new(
        datas.len(),
        |i: int|
            ReplyModel::Rendered {
                status: 0,
                data: datas[i],
                last: closed && i + 1 == datas.len(),
            },
    )
}

/// One more answer is one more step.
pub proof fn lemma_run_push(stage: StageModel, replies: Seq<ReplyModel>, reply: ReplyModel)
    ensures
        run(stage, replies.push(reply)) == step(run(stage, replies), reply),
{
    assert(replies.push(reply).drop_last() =~= replies);
}

/// Answers given one after another lead where they lead one sequence after
/// the other.
pub proof fn lemma_run_concat(stage: StageModel, first: Seq<ReplyModel>, second: Seq<ReplyModel>)
    ensures
        run(stage, first + second) == run(run(stage, first), second),
    decreases second.len(),
{
    if second.len() == 0 {
        assert(first + second =~= first);
    } else {
        lemma_run_concat(stage, first, second.drop_last());
        assert((first + second).drop_last() =~= first + second.drop_last());
    }
}

/// The list is released exactly once.
///
/// Take any resolution and any sequence of answers.  As long as no lookup
/// has handed over a list, nothing has been released.  While a node awaits
/// rendering or the release is due, a list has been handed over and has not
/// been released: no node is ever touched after the release.  Once the
/// resolution describes a status or is over, the list has been released once
/// if one was handed over, and never if none was.
pub proof fn lemma_released_exactly_once(hint: ResolutionHint, replies: Seq<ReplyModel>)
    ensures
        ({
            let start = StageModel::Lookup(hint);
            let end = run(start, replies);
            let held = handed_over(start, replies);
            let freed = releases(start, replies);
            &&& end is Lookup ==> !held && freed == 0
            &&& end is Render || end is Release ==> held && freed == 0
            &&& end is Describe || end is Done ==> freed == if held { 1nat } else { 0nat }
        }),
    decreases replies.len(),
{
    if replies.len() > 0 {
        lemma_released_exactly_once(hint, replies.drop_last());
    }
}

/// No answer of the system makes a host name invalid: a resolution that has
/// begun never ends in `InvalidInput`.
pub proof fn lemma_never_invalid_input(hint: ResolutionHint, replies: Seq<ReplyModel>)
    ensures
        run(StageModel::Lookup(hint), replies) != StageModel::Done(Err(ErrorModel::InvalidInput)),
    decreases replies.len(),
{
    if replies.len() > 0 {
        lemma_never_invalid_input(hint, replies.drop_last());
    }
}

/// A walk whose nodes are all rendered without failure collects their
/// addresses and stays in the walk until the last node.
pub proof fn lemma_walk(datas: Seq<Seq<u8>>, closed: bool)
    ensures
        run(StageModel::Render(Seq::empty()), rendered(datas, closed)) == if closed && datas.len()
            > 0 {
            StageModel::Release(Ok(addresses(datas)))
        } else {
            StageModel::Render(addresses(datas))
        },
    decreases datas.len(),
{
    if datas.len() > 0 {
        let front = datas.drop_last();
        lemma_walk(front, false);
        assert(rendered(datas, closed).drop_last() =~= rendered(front, false));
    }
}

/// A resolution whose lookup and renderings all succeed ends, after the
/// release, with the addresses of its nodes.
pub proof fn lemma_success(hint: ResolutionHint, datas: Seq<Seq<u8>>)
    requires
        datas.len() > 0,
    ensures
        run(
            StageModel::Lookup(hint),
            (seq![found_list()] + rendered(datas, true)).push(ReplyModel::Released),
        ) == StageModel::Done(Ok(addresses(datas))),
{
    let start = StageModel::Lookup(hint);
    lemma_run_push(start, Seq::empty(), found_list());
    assert(Seq::<ReplyModel>::empty().push(found_list()) =~= seq![found_list()]);
    lemma_run_concat(start, seq![found_list()], rendered(datas, true));
    lemma_walk(datas, true);
    lemma_run_push(start, seq![found_list()] + rendered(datas, true), ReplyModel::Released);
}

/// A rendering that fails ends the resolution in failure, whatever was
/// collected before: after the release and the description of the status,
/// the resolution ends with that description and no address.
pub proof fn lemma_rendering_failure(
    hint: ResolutionHint,
    datas: Seq<Seq<u8>>,
    status: i32,
    data: Seq<u8>,
    last: bool,
    message: Seq<char>,
)
    requires
        status != 0,
    ensures
        run(
            StageModel::Lookup(hint),
            (seq![found_list()] + rendered(datas, false)).push(
                ReplyModel::Rendered { status, data, last },
            ).push(ReplyModel::Released).push(ReplyModel::Described(message)),
        ) == StageModel::Done(Err(ErrorModel::ResolverFailure(message))),
{
    let start = StageModel::Lookup(hint);
    let walked = seq![found_list()] + rendered(datas, false);
    let failed = walked.push(ReplyModel::Rendered { status, data, last });
    lemma_run_push(start, Seq::empty(), found_list());
    assert(Seq::<ReplyModel>::empty().push(found_list()) =~= seq![found_list()]);
    lemma_run_concat(start, seq![found_list()], rendered(datas, false));
    lemma_walk(datas, false);
    lemma_run_push(start, walked, ReplyModel::Rendered { status, data, last });
    lemma_run_push(start, failed, ReplyModel::Released);
    lemma_run_push(start, failed.push(ReplyModel::Released), ReplyModel::Described(message));
}

/// A lookup that fails ends the resolution with the description of its
/// status, after the release of the list if it left one.
pub proof fn lemma_lookup_failure(
    hint: ResolutionHint,
    status: i32,
    list: bool,
    message: Seq<char>,
)
    requires
        status != 0,
    ensures
        run(
            StageModel::Lookup(hint),
            if list {
                seq![
                    ReplyModel::Lookup { status, list },
                    ReplyModel::Released,
                    ReplyModel::Described(message),
                ]
            } else {
                seq![ReplyModel::Lookup { status, list }, ReplyModel::Described(message)]
            },
        ) == StageModel::Done(Err(ErrorModel::ResolverFailure(message))),
{
    let start = StageModel::Lookup(hint);
    let lookup = ReplyModel::Lookup { status, list };
    let described = ReplyModel::Described(message);
    lemma_run_push(start, Seq::empty(), lookup);
    if list {
        lemma_run_push(start, seq![lookup], ReplyModel::Released);
        lemma_run_push(start, seq![lookup, ReplyModel::Released], described);
        assert(Seq::<ReplyModel>::empty().push(lookup) =~= seq![lookup]);
        assert(seq![lookup].push(ReplyModel::Released) =~= seq![lookup, ReplyModel::Released]);
        assert(seq![lookup, ReplyModel::Released].push(described) =~= seq![
            lookup,
            ReplyModel::Released,
            described,
        ]);
    } else {
        lemma_run_push(start, seq![lookup], described);
        assert(Seq::<ReplyModel>::empty().push(lookup) =~= seq![lookup]);
        assert(seq![lookup].push(described) =~= seq![lookup, described]);
    }
}

/// Every address of a walk is what the text of one of its nodes reads as,
/// and a walk collects no more addresses than it has nodes.
pub proof fn lemma_addresses_are_read(datas: Seq<Seq<u8>>)
    ensures
        addresses(datas).len() <= datas.len(),
        forall|k: int|
            0 <= k < addresses(datas).len() ==> exists|i: int|
                0 <= i < datas.len() && address(text_of(#[trigger] datas[i])) == Some(
                    #[trigger] addresses(datas)[k],
                ),
    decreases datas.len(),
{
    if datas.len() > 0 {
        let front = datas.drop_last();
        lemma_addresses_are_read(front);
        assert forall|k: int| 0 <= k < addresses(datas).len() implies exists|i: int|
            0 <= i < datas.len() && address(text_of(#[trigger] datas[i])) == Some(
                #[trigger] addresses(datas)[k],
            ) by {
            if k < addresses(front).len() {
                let i = choose|i: int|
                    0 <= i < front.len() && address(text_of(#[trigger] front[i])) == Some(
                        addresses(front)[k],
                    );
                assert(datas[i] == front[i]);
            } else {
                assert(address(text_of(datas[datas.len() - 1])) == Some(addresses(datas)[k]));
            }
        }
    }
}

/// Nodes whose text is no address are passed over, and a walk in which no
/// text is an address still succeeds: it collects nothing, and the
/// resolution ends, after the release, with no address and no failure.
pub proof fn lemma_nothing_parsed(hint: ResolutionHint, datas: Seq<Seq<u8>>)
    requires
        forall|i: int| 0 <= i < datas.len() ==> address(text_of(#[trigger] datas[i])) is None,
    ensures
        addresses(datas) == Seq::<IpAddress>::empty(),
        datas.len() > 0 ==> run(
            StageModel::Lookup(hint),
            (seq![found_list()] + rendered(datas, true)).push(ReplyModel::Released),
        ) == StageModel::Done(Ok(Seq::<IpAddress>::empty())),
    decreases datas.len(),
{
    if datas.len() > 0 {
        lemma_nothing_parsed(hint, datas.drop_last());
        lemma_success(hint, datas);
    }
}

} // verus!
