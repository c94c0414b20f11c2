//! The processor and the injector together: one event in, the actions and
//! what each of them does on the host out.

use crate::config::KeyTriggerTiming;
use crate::event::{InputEvent, InputEventView};
use crate::host_key::HostKey;
use crate::key_processor::{
    gives_way_to, hangs_on, presses, releases, shed, stays, without, EntryView,
    KeyMappingProcessor, ProcessorView,
};
use crate::key_sender::{
    action_views, parsed, sent, HostOp, KeySender, KeySenderError, TourAction, TourActionView,
};
use crate::seq_facts::lemma_filter_members;
use vstd::prelude::*;

verus! {

/// The keys that are down after an action: where the action fails, those
/// that were down before.
pub open spec fn active_after(active: Set<HostKey>, action: TourActionView) -> Set<HostKey> {
    match sent(active, action) {
        Ok(done) => done.0,
        Err(_) => active,
    }
}

/// The keys that are down after a list of actions, each carried out or
/// skipped in its turn.
pub open spec fn active_after_all(active: Set<HostKey>, actions: Seq<TourActionView>) -> Set<
    HostKey,
>
    decreases actions.len(),
{
    if actions.len() == 0 {
        active
    } else {
        active_after(active_after_all(active, actions.drop_last()), actions.last())
    }
}

/// Whether `result` is what `action` gives while `active` is down.
pub open spec fn reports(
    result: Result<Vec<HostOp>, KeySenderError>,
    active: Set<HostKey>,
    action: TourActionView,
) -> bool {
    match result {
        Ok(ops) => sent(active, action) matches Ok(done) && done.1 == ops@,
        Err(KeySenderError::UnknownKey(t)) => sent(active, action) == Err::<
            (Set<HostKey>, Seq<HostOp>),
            Seq<char>,
        >(t@),
    }
}

/// Hands the actions to the injector in order. An action that fails is
/// skipped; the others go on. The result has, for each action, the host
/// operations that it asks for or the reason why it failed.
pub fn dispatch(sender: &mut KeySender, actions: &Vec<TourAction>) -> (results: Vec<
    Result<Vec<HostOp>, KeySenderError>,
>)
    ensures
        results.len() == actions.len(),
        forall|i: int|
            0 <= i < results.len() ==> reports(
                #[trigger] results[i],
                active_after_all(old(sender)@, action_views(actions@).take(i)),
                actions[i]@,
            ),
        final(sender)@ == active_after_all(old(sender)@, action_views(actions@)),
{
    let ghost all = action_views(actions@);
    let ghost start = sender@;
    let mut results: Vec<Result<Vec<HostOp>, KeySenderError>> = Vec::new();
    let mut i: usize = 0;
    assert(all.take(0) =~= Seq::<TourActionView>::empty());
    while i < actions.len()
        invariant
            i <= actions.len(),
            results.len() == i,
            all == action_views(actions@),
            sender@ == active_after_all(start, all.take(i as int)),
            forall|j: int|
                0 <= j < i ==> reports(
                    #[trigger] results[j],
                    active_after_all(start, all.take(j)),
                    actions[j]@,
                ),
        decreases actions.len() - i,
    {
        proof {
            assert(all.take(i as int + 1).drop_last() =~= all.take(i as int));
            assert(all.take(i as int + 1).last() == actions[i as int]@);
        }
        let result = sender.send_key(&actions[i]);
        results.push(result);
        i = i + 1;
    }
    assert(all.take(i as int) =~= all);
    results
}

/// The host keys that the tokens name; a token that names none adds none.
pub open spec fn keys_of(tokens: Seq<Seq<char>>) -> Set<HostKey> {
    Set::new(
        |k: HostKey|
            exists|i: int|
                0 <= i < tokens.len() && parsed(#[trigger] tokens[i]) == Ok::<HostKey, Seq<char>>(k),
    )
}

/// Whether the hold at position `i` names the host key `k`.
pub open spec fn hold_names(v: ProcessorView, i: int, k: HostKey) -> bool {
    0 <= i < v.held.len() && keys_of(v.entries[v.held[i] as int].tokens()).contains(k)
}

/// The host keys that the held entries name.
pub open spec fn held_keys(v: ProcessorView) -> Set<HostKey> {
    Set::new(|k: HostKey| exists|i: int| hold_names(v, i, k))
}

/// Whether the hold at position `i` is given up and lets the host key `k`
/// go: it names `k` by a token that is not among `keep`.
pub open spec fn hold_lets_go(
    v: ProcessorView,
    gone: spec_fn(EntryView) -> bool,
    keep: Seq<Seq<char>>,
    i: int,
    k: HostKey,
) -> bool {
    &&& 0 <= i < v.held.len()
    &&& gone(v.entries[v.held[i] as int])
    &&& keys_of(without(v.entries[v.held[i] as int].tokens(), keep)).contains(k)
}

/// Whether the hold at position `j` stays and names the host key `k`.
pub open spec fn hold_keeps(
    v: ProcessorView,
    gone: spec_fn(EntryView) -> bool,
    j: int,
    k: HostKey,
) -> bool {
    hold_names(v, j, k) && !gone(v.entries[v.held[j] as int])
}

/// Whether giving up the `gone` holds lets a host key go that a hold which
/// stays names too, and that `keep` does not press again.
pub open spec fn strands_key(
    v: ProcessorView,
    gone: spec_fn(EntryView) -> bool,
    keep: Seq<Seq<char>>,
) -> bool {
    exists|i: int, j: int, k: HostKey|
        #[trigger] hold_lets_go(v, gone, keep, i, k) && #[trigger] hold_keeps(v, gone, j, k)
            && !keys_of(keep).contains(k)
}

/// What `ev` does to the holds: the test by which holds are given up and
/// the tokens that are pressed after that. An event that neither takes a
/// hold up nor lets a device key go does nothing to them.
pub open spec fn turnover(v: ProcessorView, ev: InputEventView) -> Option<
    (spec_fn(EntryView) -> bool, Seq<Seq<char>>),
> {
    match ev {
        InputEventView::KeyPressed(k) => match v.selected(ev) {
            Some(e) => if v.entries[e as int].trigger == KeyTriggerTiming::OnHold {
                Some((gives_way_to(v.entries[e as int]), v.entries[e as int].tokens()))
            } else {
                None
            },
            None => None,
        },
        InputEventView::KeyReleased(k) => Some((hangs_on(k), Seq::empty())),
    }
}

/// Whether `ev` gives up a hold whose host key another hold, which stays,
/// still needs. The processor releases such a key all the same; this is
/// where the injector's record and the holds part ways.
pub open spec fn sheds_shared_key(v: ProcessorView, ev: InputEventView) -> bool {
    match turnover(v, ev) {
        Some((gone, keep)) => strands_key(v, gone, keep),
        None => false,
    }
}

/// With nothing held the holds name no host key.
pub proof fn lemma_no_holds_no_keys(v: ProcessorView)
    requires
        v.held.len() == 0,
    ensures
        held_keys(v) == Set::<HostKey>::empty(),
{
    assert forall|k: HostKey| !held_keys(v).contains(k) by {
        assert(forall|i: int| !hold_names(v, i, k));
    }
    assert(held_keys(v) =~= Set::<HostKey>::empty());
}

/// Carrying out one list of actions after another is carrying out the two
/// joined.
pub proof fn lemma_active_after_concat(
    active: Set<HostKey>,
    first: Seq<TourActionView>,
    second: Seq<TourActionView>,
)
    ensures
        active_after_all(active, first + second) == active_after_all(
            active_after_all(active, first),
            second,
        ),
    decreases second.len(),
{
    if second.len() == 0 {
        assert(first + second =~= first);
    } else {
        assert((first + second).drop_last() =~= first + second.drop_last());
        assert((first + second).last() == second.last());
        lemma_active_after_concat(active, first, second.drop_last());
    }
}

/// The keys of a list of tokens are those of all but the last and that of
/// the last.
proof fn lemma_keys_of_push(tokens: Seq<Seq<char>>)
    requires
        tokens.len() > 0,
    ensures
        keys_of(tokens) == match parsed(tokens.last()) {
            Ok(k) => keys_of(tokens.drop_last()).insert(k),
            Err(_) => keys_of(tokens.drop_last()),
        },
{
    let front = tokens.drop_last();
    let rhs = match parsed(tokens.last()) {
        Ok(k) => keys_of(front).insert(k),
        Err(_) => keys_of(front),
    };
    assert forall|k: HostKey| keys_of(tokens).contains(k) <==> rhs.contains(k) by {
        if keys_of(tokens).contains(k) {
            let i = choose|i: int|
                0 <= i < tokens.len() && parsed(#[trigger] tokens[i]) == Ok::<HostKey, Seq<char>>(k);
            if i < front.len() {
                assert(front[i] == tokens[i]);
            }
        }
        if keys_of(front).contains(k) {
            let i = choose|i: int|
                0 <= i < front.len() && parsed(#[trigger] front[i]) == Ok::<HostKey, Seq<char>>(k);
            assert(tokens[i] == front[i]);
        }
        assert(tokens[tokens.len() - 1] == tokens.last());
    }
    assert(keys_of(tokens) =~= rhs);
}

/// Releasing tokens takes the keys that they name out of the record.
pub proof fn lemma_releases_remove(active: Set<HostKey>, tokens: Seq<Seq<char>>)
    ensures
        active_after_all(active, releases(tokens)) == active.difference(keys_of(tokens)),
    decreases tokens.len(),
{
    if tokens.len() == 0 {
        assert(active.difference(keys_of(tokens)) =~= active);
    } else {
        let front = tokens.drop_last();
        assert(releases(tokens).drop_last() =~= releases(front));
        lemma_releases_remove(active, front);
        lemma_keys_of_push(tokens);
        assert(active_after_all(active, releases(tokens)) =~= active.difference(keys_of(tokens)));
    }
}

/// Pressing tokens puts the keys that they name into the record.
pub proof fn lemma_presses_insert(active: Set<HostKey>, tokens: Seq<Seq<char>>)
    ensures
        active_after_all(active, presses(tokens)) == active.union(keys_of(tokens)),
    decreases tokens.len(),
{
    if tokens.len() == 0 {
        assert(active.union(keys_of(tokens)) =~= active);
    } else {
        let front = tokens.drop_last();
        assert(presses(tokens).drop_last() =~= presses(front));
        lemma_presses_insert(active, front);
        lemma_keys_of_push(tokens);
        assert(active_after_all(active, presses(tokens)) =~= active.union(keys_of(tokens)));
    }
}

/// The keys that giving up the `gone` holds lets go.
pub open spec fn shed_keys(
    v: ProcessorView,
    gone: spec_fn(EntryView) -> bool,
    keep: Seq<Seq<char>>,
) -> Set<HostKey> {
    Set::new(|k: HostKey| exists|i: int| hold_lets_go(v, gone, keep, i, k))
}

/// Giving up holds takes the keys that they let go out of the record.
pub proof fn lemma_shed_removes(
    active: Set<HostKey>,
    v: ProcessorView,
    gone: spec_fn(EntryView) -> bool,
    keep: Seq<Seq<char>>,
)
    ensures
        active_after_all(active, shed(v.entries, v.held, gone, keep)) == active.difference(
            shed_keys(v, gone, keep),
        ),
    decreases v.held.len(),
{
    if v.held.len() == 0 {
        assert(active.difference(shed_keys(v, gone, keep)) =~= active);
    } else {
        let front = ProcessorView { entries: v.entries, pressed: v.pressed, held: v.held.drop_last() };
        let last = v.entries[v.held.last() as int];
        let n = v.held.len() - 1;
        lemma_shed_removes(active, front, gone, keep);
        let before = shed(v.entries, front.held, gone, keep);
        let dropped = if gone(last) {
            keys_of(without(last.tokens(), keep))
        } else {
            Set::empty()
        };
        assert forall|k: HostKey| #[trigger]
            shed_keys(v, gone, keep).contains(k) <==> shed_keys(front, gone, keep).contains(k)
                || dropped.contains(k) by {
            if shed_keys(v, gone, keep).contains(k) {
                let i = choose|i: int| hold_lets_go(v, gone, keep, i, k);
                if i < n {
                    assert(hold_lets_go(front, gone, keep, i, k));
                }
            }
            if shed_keys(front, gone, keep).contains(k) {
                let i = choose|i: int| hold_lets_go(front, gone, keep, i, k);
                assert(hold_lets_go(v, gone, keep, i, k));
            }
            if dropped.contains(k) {
                assert(hold_lets_go(v, gone, keep, n, k));
            }
        }
        let mid = active_after_all(active, before);
        let end = active_after_all(active, shed(v.entries, v.held, gone, keep));
        assert(mid == active.difference(shed_keys(front, gone, keep)));
        if gone(last) {
            let more = releases(without(last.tokens(), keep));
            assert(shed(v.entries, v.held, gone, keep) == before + more);
            lemma_active_after_concat(active, before, more);
            lemma_releases_remove(mid, without(last.tokens(), keep));
            assert(end == mid.difference(dropped));
        } else {
            assert(shed(v.entries, v.held, gone, keep) == before);
            assert(end == mid);
        }
        assert forall|k: HostKey| end.contains(k) <==> active.difference(
            shed_keys(v, gone, keep),
        ).contains(k) by {
            assert(shed_keys(v, gone, keep).contains(k) <==> shed_keys(front, gone, keep).contains(k)
                || dropped.contains(k));
        }
        assert(end =~= active.difference(shed_keys(v, gone, keep)));
    }
}

/// A key that tokens name is named by a token outside `keep` or by a token
/// of `keep`; and a token outside `keep` is one of the tokens.
proof fn lemma_keys_of_without(tokens: Seq<Seq<char>>, keep: Seq<Seq<char>>, k: HostKey)
    ensures
        keys_of(tokens).contains(k) ==> keys_of(without(tokens, keep)).contains(k) || keys_of(
            keep,
        ).contains(k),
        keys_of(without(tokens, keep)).contains(k) ==> keys_of(tokens).contains(k),
{
    let test = |t: Seq<char>| !keep.contains(t);
    let rest = without(tokens, keep);
    lemma_filter_members(tokens, test);
    if keys_of(tokens).contains(k) {
        let i = choose|i: int|
            0 <= i < tokens.len() && parsed(#[trigger] tokens[i]) == Ok::<HostKey, Seq<char>>(k);
        let t = tokens[i];
        assert(tokens.contains(t));
        if keep.contains(t) {
            let j = choose|j: int| 0 <= j < keep.len() && keep[j] == t;
            assert(parsed(keep[j]) == Ok::<HostKey, Seq<char>>(k));
        } else {
            assert(test(t));
            assert(rest.contains(t));
            let j = choose|j: int| 0 <= j < rest.len() && rest[j] == t;
            assert(parsed(rest[j]) == Ok::<HostKey, Seq<char>>(k));
        }
    }
    if keys_of(rest).contains(k) {
        let i = choose|i: int|
            0 <= i < rest.len() && parsed(#[trigger] rest[i]) == Ok::<HostKey, Seq<char>>(k);
        let t = rest[i];
        assert(rest.contains(t));
        assert(tokens.contains(t));
        let j = choose|j: int| 0 <= j < tokens.len() && tokens[j] == t;
        assert(parsed(tokens[j]) == Ok::<HostKey, Seq<char>>(k));
    }
}

/// The state with other holds.
pub open spec fn with_held(v: ProcessorView, held: Seq<usize>) -> ProcessorView {
    ProcessorView { entries: v.entries, pressed: v.pressed, held }
}

/// Where the record holds the keys of the holds and giving up the `gone`
/// holds strands no key, the record without the keys let go, with the keys
/// of `keep`, holds the keys of the holds that stay, with the keys of `keep`.
proof fn lemma_shed_step(
    v: ProcessorView,
    active: Set<HostKey>,
    gone: spec_fn(EntryView) -> bool,
    keep: Seq<Seq<char>>,
)
    requires
        active == held_keys(v),
        !strands_key(v, gone, keep),
    ensures
        active.difference(shed_keys(v, gone, keep)).union(keys_of(keep)) == held_keys(
            with_held(v, v.held.filter(stays(v.entries, gone))),
        ).union(keys_of(keep)),
{
    let kept = v.held.filter(stays(v.entries, gone));
    let w = with_held(v, kept);
    let left = active.difference(shed_keys(v, gone, keep)).union(keys_of(keep));
    let right = held_keys(w).union(keys_of(keep));
    lemma_filter_members(v.held, stays(v.entries, gone));
    assert forall|k: HostKey| left.contains(k) <==> right.contains(k) by {
        if left.contains(k) && !keys_of(keep).contains(k) {
            let i = choose|i: int| hold_names(v, i, k);
            let h = v.held[i];
            assert(v.held.contains(h));
            if gone(v.entries[h as int]) {
                lemma_keys_of_without(v.entries[h as int].tokens(), keep, k);
                assert(hold_lets_go(v, gone, keep, i, k));
                assert(shed_keys(v, gone, keep).contains(k));
            } else {
                assert(stays(v.entries, gone)(h));
                assert(kept.contains(h));
                let j = choose|j: int| 0 <= j < kept.len() && kept[j] == h;
                assert(hold_names(w, j, k));
            }
        }
        if right.contains(k) && !keys_of(keep).contains(k) {
            let j = choose|j: int| hold_names(w, j, k);
            let h = kept[j];
            assert(kept.contains(h));
            assert(v.held.contains(h) && stays(v.entries, gone)(h));
            let i = choose|i: int| 0 <= i < v.held.len() && v.held[i] == h;
            assert(hold_names(v, i, k));
            assert(hold_keeps(v, gone, i, k));
            if shed_keys(v, gone, keep).contains(k) {
                let g = choose|g: int| hold_lets_go(v, gone, keep, g, k);
                assert(hold_lets_go(v, gone, keep, g, k) && hold_keeps(v, gone, i, k));
            }
        }
    }
    assert(left =~= right);
}

/// A click leaves the record as it was.
pub proof fn lemma_click_keeps_record(active: Set<HostKey>, s: Seq<char>)
    ensures
        active_after(active, TourActionView::KeyClick(s)) == active,
{
}

/// States with the same table and the same holds name the same host keys.
proof fn lemma_same_holds_same_keys(v: ProcessorView, w: ProcessorView)
    requires
        w.entries == v.entries,
        w.held == v.held,
    ensures
        held_keys(w) == held_keys(v),
{
    assert forall|i: int, x: HostKey| hold_names(w, i, x) == hold_names(v, i, x) by {}
    assert(held_keys(w) =~= held_keys(v));
}

/// What carrying out the actions of `ev` does to the record: the keys that
/// the holds given up let go leave it, then the keys of the tokens that are
/// pressed enter it.
proof fn lemma_record_after_event(v: ProcessorView, active: Set<HostKey>, ev: InputEventView)
    ensures
        active_after_all(active, v.emitted(ev)) == match turnover(v, ev) {
            Some((gone, keep)) => active.difference(shed_keys(v, gone, keep)).union(keys_of(keep)),
            None => active,
        },
{
    let none = Seq::<TourActionView>::empty();
    assert(active_after_all(active, none) == active);
    match turnover(v, ev) {
        Some((gone, keep)) => {
            let rest = shed(v.entries, v.held, gone, keep);
            let after_shed = active.difference(shed_keys(v, gone, keep));
            lemma_shed_removes(active, v, gone, keep);
            if ev is KeyPressed {
                lemma_active_after_concat(active, rest, presses(keep));
                lemma_presses_insert(active_after_all(active, rest), keep);
            } else {
                let all = v.emitted(ev);
                let click = all.take(all.len() - rest.len());
                assert(all =~= click + rest);
                assert(active_after_all(active, click) == active) by {
                    if click.len() > 0 {
                        assert(click.drop_last() =~= none);
                    }
                }
                lemma_active_after_concat(active, click, rest);
                assert(keys_of(keep) =~= Set::<HostKey>::empty());
                assert(after_shed.union(keys_of(keep)) =~= after_shed);
            }
        },
        None => {
            if v.emitted(ev).len() > 0 {
                assert(v.emitted(ev).drop_last() =~= none);
            }
        },
    }
}

/// The host keys that the holds name after `ev`: those of the holds that
/// stay and those of the tokens that are pressed.
proof fn lemma_holds_after_event(v: ProcessorView, ev: InputEventView)
    ensures
        held_keys(v.after(ev)) == match turnover(v, ev) {
            Some((gone, keep)) => held_keys(
                with_held(v, v.held.filter(stays(v.entries, gone))),
            ).union(keys_of(keep)),
            None => held_keys(v),
        },
{
    let w = v.after(ev);
    match turnover(v, ev) {
        Some((gone, keep)) => {
            let kept = v.held.filter(stays(v.entries, gone));
            let u = with_held(v, kept);
            if ev is KeyPressed {
                let e = v.selected(ev)->0;
                assert forall|x: HostKey| held_keys(w).contains(x) <==> held_keys(u).union(
                    keys_of(keep),
                ).contains(x) by {
                    if held_keys(w).contains(x) {
                        let i = choose|i: int| hold_names(w, i, x);
                        if i < kept.len() {
                            assert(hold_names(u, i, x));
                        }
                    }
                    if held_keys(u).contains(x) {
                        let i = choose|i: int| hold_names(u, i, x);
                        assert(hold_names(w, i, x));
                    }
                    if keys_of(keep).contains(x) {
                        if kept.contains(e) {
                            let i = choose|i: int| 0 <= i < kept.len() && kept[i] == e;
                            assert(hold_names(w, i, x));
                        } else {
                            assert(hold_names(w, kept.len() as int, x));
                        }
                    }
                }
                assert(held_keys(w) =~= held_keys(u).union(keys_of(keep)));
            } else {
                lemma_same_holds_same_keys(u, w);
                assert(keys_of(keep) =~= Set::<HostKey>::empty());
                assert(held_keys(u).union(keys_of(keep)) =~= held_keys(u));
            }
        },
        None => {
            lemma_same_holds_same_keys(v, w);
        },
    }
}

/// The keys of the holds that the injector's record tracks: as long as no
/// event gives up a hold whose host key another hold still needs, carrying
/// out what each event emits leaves exactly the host keys of the held
/// entries down. It starts so, with no hold and no key down.
pub proof fn lemma_record_follows_holds(v: ProcessorView, active: Set<HostKey>, ev: InputEventView)
    requires
        active == held_keys(v),
        !sheds_shared_key(v, ev),
    ensures
        active_after_all(active, v.emitted(ev)) == held_keys(v.after(ev)),
{
    lemma_record_after_event(v, active, ev);
    lemma_holds_after_event(v, ev);
    match turnover(v, ev) {
        Some((gone, keep)) => {
            lemma_shed_step(v, active, gone, keep);
        },
        None => {},
    }
}

/// The record and the holds do part ways on every event that gives up a
/// hold whose host key another hold still needs: the key is let go on the
/// host while a held entry still names it.
pub proof fn lemma_shared_key_is_stranded(
    v: ProcessorView,
    active: Set<HostKey>,
    ev: InputEventView,
)
    requires
        active == held_keys(v),
        sheds_shared_key(v, ev),
    ensures
        active_after_all(active, v.emitted(ev)) != held_keys(v.after(ev)),
{
    lemma_record_after_event(v, active, ev);
    lemma_holds_after_event(v, ev);
    let (gone, keep) = turnover(v, ev)->0;
    let kept = v.held.filter(stays(v.entries, gone));
    let u = with_held(v, kept);
    let (i, j, x) = choose|i: int, j: int, x: HostKey|
        #[trigger] hold_lets_go(v, gone, keep, i, x) && #[trigger] hold_keeps(v, gone, j, x)
            && !keys_of(keep).contains(x);
    assert(shed_keys(v, gone, keep).contains(x));
    assert(!active_after_all(active, v.emitted(ev)).contains(x));
    lemma_filter_members(v.held, stays(v.entries, gone));
    let h = v.held[j];
    assert(v.held.contains(h));
    assert(stays(v.entries, gone)(h));
    assert(kept.contains(h));
    let n = choose|n: int| 0 <= n < kept.len() && kept[n] == h;
    assert(hold_names(u, n, x));
    assert(held_keys(u).contains(x));
}

/// Takes one event through both stages: the processor turns it into
/// actions and the injector carries each of them out or skips it. Returns
/// the actions and, for each, the host operations that it asks for or the
/// reason why it failed.
pub fn handle_event(
    processor: &mut KeyMappingProcessor,
    sender: &mut KeySender,
    ev: InputEvent,
) -> (done: (Vec<TourAction>, Vec<Result<Vec<HostOp>, KeySenderError>>))
    requires
        old(processor).wf(),
    ensures
        final(processor).wf(),
        final(processor)@ == old(processor)@.after(ev@),
        action_views(done.0@) == old(processor)@.emitted(ev@),
        done.1.len() == done.0.len(),
        forall|i: int|
            0 <= i < done.1.len() ==> reports(
                #[trigger] done.1[i],
                active_after_all(old(sender)@, old(processor)@.emitted(ev@).take(i)),
                old(processor)@.emitted(ev@)[i],
            ),
        final(sender)@ == active_after_all(old(sender)@, old(processor)@.emitted(ev@)),
        old(sender)@ == held_keys(old(processor)@) && !sheds_shared_key(old(processor)@, ev@)
            ==> final(sender)@ == held_keys(final(processor)@),
{
    proof {
        if !sheds_shared_key(processor@, ev@) {
            lemma_record_follows_holds(processor@, held_keys(processor@), ev@);
        }
    }
    let actions = processor.process(ev);
    let results = dispatch(sender, &actions);
    (actions, results)
}

} // verus!
