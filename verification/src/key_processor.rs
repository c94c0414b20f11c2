//! The mapping processor: selects the mapping that an event activates and
//! keeps the books on pressed device keys and held mappings.

use crate::config::{KeyMappingConfig, KeyTriggerTiming};
use crate::event::{InputEvent, InputEventView};
use crate::key_sender::{action_views, TourAction, TourActionView};
use crate::seq_facts::lemma_filter_members;
use crate::text::{
    lemma_split_plus_single, list_contains, split_on_plus, split_plus, text_eq, views_of,
};
use vstd::hash_map::StringHashMap;
use vstd::hash_set::StringHashSet;
use vstd::prelude::*;

verus! {

/// One mapping, with its `keys` taken apart into trigger key and modifiers.
#[derive(Debug)]
pub struct KeyMappingEntry {
    trigger_key: String,
    action: String,
    modifier: Vec<String>,
    trigger: KeyTriggerTiming,
}

/// A mapping entry as plain values.
pub ghost struct EntryView {
    /// The device key whose press or release triggers evaluation.
    pub trigger_key: Seq<char>,
    /// The `+`-joined host key tokens.
    pub action: Seq<char>,
    /// The device keys that must be down for the entry to match, in order.
    pub modifiers: Seq<Seq<char>>,
    pub trigger: KeyTriggerTiming,
}

/// The bonus that a trigger timing earns on a press or on a release.
pub open spec fn bonus(trigger: KeyTriggerTiming, press: bool) -> int {
    match trigger {
        KeyTriggerTiming::OnPress => if press { 1000 } else { -1000 },
        KeyTriggerTiming::OnHold => 1000,
        KeyTriggerTiming::OnRelease => if press { -1000 } else { 1000 },
    }
}

impl EntryView {
    /// The entry that a mapping configuration describes: the last piece of
    /// `keys` triggers, the pieces before it are the modifiers.
    pub open spec fn of_config(
        keys: Seq<char>,
        action: Seq<char>,
        trigger: KeyTriggerTiming,
    ) -> EntryView {
        let pieces = split_plus(keys);
        EntryView { trigger_key: pieces.last(), action, modifiers: pieces.drop_last(), trigger }
    }

    /// The host key tokens of the action.
    pub open spec fn tokens(self) -> Seq<Seq<char>> {
        split_plus(self.action)
    }

    /// Whether the entry can only stay held while device key `k` is down.
    pub open spec fn needs(self, k: Seq<char>) -> bool {
        self.trigger_key == k || self.modifiers.contains(k)
    }

    /// Whether a hold of this entry gives way when `e` is taken up: some
    /// modifier of `e` is a modifier or the trigger key of this entry.
    pub open spec fn yields_to(self, e: EntryView) -> bool {
        exists|j: int| 0 <= j < e.modifiers.len() && self.needs(#[trigger] e.modifiers[j])
    }

    /// Whether every modifier of the entry is among the pressed keys.
    pub open spec fn eligible(self, pressed: Set<Seq<char>>) -> bool {
        forall|j: int|
            0 <= j < self.modifiers.len() ==> pressed.contains(#[trigger] self.modifiers[j])
    }

    /// The rank of the entry among the eligible candidates of an event.
    pub open spec fn score(self, press: bool) -> int {
        self.modifiers.len() + bonus(self.trigger, press)
    }
}

impl View for KeyMappingEntry {
    type V = EntryView;

    closed spec fn view(&self) -> EntryView {
        EntryView {
            trigger_key: self.trigger_key@,
            action: self.action@,
            modifiers: views_of(self.modifier@),
            trigger: self.trigger,
        }
    }
}

/// The views of a sequence of entries, in order.
pub open spec fn entry_views(entries: Seq<KeyMappingEntry>) -> Seq<EntryView> {
    entries.map_values(|e: KeyMappingEntry| e@)
}

/// The handles of the entries that `k` triggers, in ascending order.
pub open spec fn handles_for(entries: Seq<EntryView>, k: Seq<char>) -> Seq<usize>
    decreases entries.len(),
{
    if entries.len() == 0 {
        Seq::empty()
    } else {
        let before = handles_for(entries.drop_last(), k);
        if entries.last().trigger_key == k {
            before.push((entries.len() - 1) as usize)
        } else {
            before
        }
    }
}

/// The winner among `candidates`: the eligible candidate with the highest
/// score, and of several with that score the one that comes first.
pub open spec fn best_of(
    entries: Seq<EntryView>,
    pressed: Set<Seq<char>>,
    candidates: Seq<usize>,
    press: bool,
) -> Option<usize>
    decreases candidates.len(),
{
    if candidates.len() == 0 {
        None
    } else {
        let earlier = best_of(entries, pressed, candidates.drop_last(), press);
        let h = candidates.last();
        if !entries[h as int].eligible(pressed) {
            earlier
        } else {
            match earlier {
                None => Some(h),
                Some(b) => if entries[h as int].score(press) > entries[b as int].score(press) {
                    Some(h)
                } else {
                    Some(b)
                },
            }
        }
    }
}

/// `KeyRelease` of each token, in order.
pub open spec fn releases(tokens: Seq<Seq<char>>) -> Seq<TourActionView> {
    tokens.map_values(|t: Seq<char>| TourActionView::KeyRelease(t))
}

/// `KeyPress` of each token, in order.
pub open spec fn presses(tokens: Seq<Seq<char>>) -> Seq<TourActionView> {
    tokens.map_values(|t: Seq<char>| TourActionView::KeyPress(t))
}

/// The tokens that are not among `keep`, in order.
pub open spec fn without(tokens: Seq<Seq<char>>, keep: Seq<Seq<char>>) -> Seq<Seq<char>> {
    tokens.filter(|t: Seq<char>| !keep.contains(t))
}

/// The test that an entry gives way to `e`.
pub open spec fn gives_way_to(e: EntryView) -> spec_fn(EntryView) -> bool {
    |h: EntryView| h.yields_to(e)
}

/// The test that an entry needs the device key `k`.
pub open spec fn hangs_on(k: Seq<char>) -> spec_fn(EntryView) -> bool {
    |h: EntryView| h.needs(k)
}

/// The test that the entry behind a handle is not `gone`.
pub open spec fn stays(entries: Seq<EntryView>, gone: spec_fn(EntryView) -> bool) -> spec_fn(
    usize,
) -> bool {
    |h: usize| !gone(entries[h as int])
}

/// The releases that giving up holds emits: for each held handle in order
/// whose entry is `gone`, a release of each of its tokens that is not among
/// `keep`.
pub open spec fn shed(
    entries: Seq<EntryView>,
    held: Seq<usize>,
    gone: spec_fn(EntryView) -> bool,
    keep: Seq<Seq<char>>,
) -> Seq<TourActionView>
    decreases held.len(),
{
    if held.len() == 0 {
        Seq::empty()
    } else {
        let before = shed(entries, held.drop_last(), gone, keep);
        let h = entries[held.last() as int];
        if gone(h) {
            before + releases(without(h.tokens(), keep))
        } else {
            before
        }
    }
}

/// The state of a processor as plain values.
pub ghost struct ProcessorView {
    /// The mapping table; a handle is an index into it.
    pub entries: Seq<EntryView>,
    /// The device keys that are down.
    pub pressed: Set<Seq<char>>,
    /// The handles of the holds that keep host keys down, oldest first.
    pub held: Seq<usize>,
}

impl ProcessorView {
    /// The entry that `ev` activates, chosen before `ev` changes the pressed
    /// keys: on a press the event's key does not count as down yet, on a
    /// release it still does, so that an entry which names the released key
    /// among its modifiers can match.
    pub open spec fn selected(self, ev: InputEventView) -> Option<usize> {
        best_of(self.entries, self.pressed, handles_for(self.entries, ev.key()), ev.is_press())
    }

    /// The holds that stay when the entry at `e` is taken up, then `e`.
    pub open spec fn held_after_hold(self, e: usize) -> Seq<usize> {
        let kept = self.held.filter(stays(self.entries, gives_way_to(self.entries[e as int])));
        if kept.contains(e) {
            kept
        } else {
            kept.push(e)
        }
    }

    /// The state after `ev`.
    pub open spec fn after(self, ev: InputEventView) -> ProcessorView {
        match ev {
            InputEventView::KeyPressed(k) => ProcessorView {
                entries: self.entries,
                pressed: self.pressed.insert(k),
                held: match self.selected(ev) {
                    Some(e) => if self.entries[e as int].trigger == KeyTriggerTiming::OnHold {
                        self.held_after_hold(e)
                    } else {
                        self.held
                    },
                    None => self.held,
                },
            },
            InputEventView::KeyReleased(k) => ProcessorView {
                entries: self.entries,
                pressed: self.pressed.remove(k),
                held: self.held.filter(stays(self.entries, hangs_on(k))),
            },
        }
    }

    /// The actions that `ev` produces, in the order in which they are due.
    pub open spec fn emitted(self, ev: InputEventView) -> Seq<TourActionView> {
        match ev {
            InputEventView::KeyPressed(k) => match self.selected(ev) {
                Some(e) => {
                    let entry = self.entries[e as int];
                    match entry.trigger {
                        KeyTriggerTiming::OnPress => seq![TourActionView::KeyClick(entry.action)],
                        KeyTriggerTiming::OnHold => shed(
                            self.entries,
                            self.held,
                            gives_way_to(entry),
                            entry.tokens(),
                        ) + presses(entry.tokens()),
                        KeyTriggerTiming::OnRelease => Seq::empty(),
                    }
                },
                None => Seq::empty(),
            },
            InputEventView::KeyReleased(k) => {
                let click = match self.selected(ev) {
                    Some(e) => if self.entries[e as int].trigger == KeyTriggerTiming::OnRelease {
                        seq![TourActionView::KeyClick(self.entries[e as int].action)]
                    } else {
                        Seq::empty()
                    },
                    None => Seq::empty(),
                };
                click + shed(self.entries, self.held, hangs_on(k), Seq::empty())
            },
        }
    }

    /// What holds of every state that events lead to: the table is no longer
    /// than a handle can count, the held handles are distinct handles of hold
    /// entries, and every device key that a held entry names, as modifier or
    /// as trigger, is down.
    pub open spec fn valid(self) -> bool {
        &&& self.entries.len() <= usize::MAX
        &&& self.held.no_duplicates()
        &&& forall|i: int|
            0 <= i < self.held.len() ==> {
                let h = #[trigger] self.held[i];
                &&& h < self.entries.len()
                &&& self.entries[h as int].trigger == KeyTriggerTiming::OnHold
                &&& self.pressed.contains(self.entries[h as int].trigger_key)
                &&& self.entries[h as int].eligible(self.pressed)
            }
    }
}

/// The handles that `k` triggers are the indices of the entries with that
/// trigger key, each once, and they ascend.
pub proof fn lemma_handles_for(entries: Seq<EntryView>, k: Seq<char>)
    requires
        entries.len() <= usize::MAX,
    ensures
        forall|i: int|
            0 <= i < handles_for(entries, k).len() ==> {
                let h = #[trigger] handles_for(entries, k)[i];
                h < entries.len() && entries[h as int].trigger_key == k
            },
        forall|i: int, j: int|
            0 <= i < j < handles_for(entries, k).len() ==> handles_for(entries, k)[i]
                < handles_for(entries, k)[j],
        forall|h: usize|
            h < entries.len() && (#[trigger] entries[h as int]).trigger_key == k ==> handles_for(
                entries,
                k,
            ).contains(h),
    decreases entries.len(),
{
    if entries.len() > 0 {
        let front = entries.drop_last();
        let listed = handles_for(entries, k);
        lemma_handles_for(front, k);
        assert forall|h: usize|
            h < entries.len() && (#[trigger] entries[h as int]).trigger_key == k implies listed.contains(
            h,
        ) by {
            if h < front.len() {
                assert(front[h as int] == entries[h as int]);
                let i = choose|i: int|
                    0 <= i < handles_for(front, k).len() && handles_for(front, k)[i] == h;
                assert(listed[i] == h);
            } else {
                assert(listed[listed.len() - 1] == h);
            }
        }
    }
}

/// The winner, if there is one, is one of the candidates and is eligible.
pub proof fn lemma_best_of_member(
    entries: Seq<EntryView>,
    pressed: Set<Seq<char>>,
    candidates: Seq<usize>,
    press: bool,
)
    ensures
        best_of(entries, pressed, candidates, press) matches Some(b) ==> candidates.contains(b)
            && entries[b as int].eligible(pressed),
    decreases candidates.len(),
{
    if candidates.len() > 0 {
        lemma_best_of_member(entries, pressed, candidates.drop_last(), press);
        let earlier = best_of(entries, pressed, candidates.drop_last(), press);
        if let Some(b) = earlier {
            let i = choose|i: int| 0 <= i < candidates.drop_last().len() && candidates.drop_last()[i] == b;
            assert(candidates[i] == b);
        }
        assert(candidates[candidates.len() - 1] == candidates.last());
    }
}

/// Whether the candidate at position `i` is eligible, no eligible candidate
/// scores higher, and every eligible candidate before it scores lower.
pub open spec fn is_first_maximum(
    entries: Seq<EntryView>,
    pressed: Set<Seq<char>>,
    candidates: Seq<usize>,
    press: bool,
    i: int,
) -> bool {
    &&& 0 <= i < candidates.len()
    &&& entries[candidates[i] as int].eligible(pressed)
    &&& forall|j: int|
        0 <= j < candidates.len() && entries[#[trigger] candidates[j] as int].eligible(pressed)
            ==> entries[candidates[j] as int].score(press) <= entries[candidates[i] as int].score(
            press,
        )
    &&& forall|j: int|
        0 <= j < i && entries[#[trigger] candidates[j] as int].eligible(pressed)
            ==> entries[candidates[j] as int].score(press) < entries[candidates[i] as int].score(
            press,
        )
}

/// The winner is the first of the eligible candidates with the highest
/// score, and there is none only where no candidate is eligible.
pub proof fn lemma_best_of_first_maximum(
    entries: Seq<EntryView>,
    pressed: Set<Seq<char>>,
    candidates: Seq<usize>,
    press: bool,
)
    ensures
        match best_of(entries, pressed, candidates, press) {
            None => forall|i: int|
                0 <= i < candidates.len() ==> !entries[#[trigger] candidates[i] as int].eligible(
                    pressed,
                ),
            Some(b) => exists|i: int|
                #[trigger] is_first_maximum(entries, pressed, candidates, press, i)
                    && candidates[i] == b,
        },
    decreases candidates.len(),
{
    if candidates.len() > 0 {
        let front = candidates.drop_last();
        let n = candidates.len() - 1;
        let h = candidates.last();
        lemma_best_of_first_maximum(entries, pressed, front, press);
        assert(forall|j: int| 0 <= j < n ==> front[j] == candidates[j]);
        match best_of(entries, pressed, front, press) {
            None => {
                if entries[h as int].eligible(pressed) {
                    assert(is_first_maximum(entries, pressed, candidates, press, n));
                }
            },
            Some(b) => {
                let i = choose|i: int|
                    #[trigger] is_first_maximum(entries, pressed, front, press, i) && front[i] == b;
                if entries[h as int].eligible(pressed) && entries[h as int].score(press)
                    > entries[b as int].score(press) {
                    assert(is_first_maximum(entries, pressed, candidates, press, n));
                } else {
                    assert(is_first_maximum(entries, pressed, candidates, press, i));
                }
            },
        }
    }
}

/// Events keep the state valid: no hold outlives a device key that its entry
/// names.
pub proof fn lemma_after_valid(v: ProcessorView, ev: InputEventView)
    requires
        v.valid(),
    ensures
        v.after(ev).valid(),
{
    let w = v.after(ev);
    match ev {
        InputEventView::KeyPressed(k) => {
            assert forall|h: usize| v.entries[h as int].eligible(v.pressed) implies v.entries[h as int].eligible(
                w.pressed,
            ) by {}
            match v.selected(ev) {
                Some(e) => {
                    lemma_best_of_member(v.entries, v.pressed, handles_for(v.entries, k), true);
                    lemma_handles_for(v.entries, k);
                    if v.entries[e as int].trigger == KeyTriggerTiming::OnHold {
                        let kept = v.held.filter(stays(v.entries, gives_way_to(v.entries[e as int])));
                        lemma_filter_members(v.held, stays(v.entries, gives_way_to(v.entries[e as int])));
                        assert forall|i: int| 0 <= i < kept.len() implies v.held.contains(#[trigger] kept[i]) by {
                            assert(kept.contains(kept[i]));
                        }
                    }
                },
                None => {},
            }
        },
        InputEventView::KeyReleased(k) => {
            let p = stays(v.entries, hangs_on(k));
            lemma_filter_members(v.held, p);
            assert forall|i: int| 0 <= i < w.held.len() implies {
                let h = #[trigger] w.held[i];
                &&& h < w.entries.len()
                &&& w.entries[h as int].trigger == KeyTriggerTiming::OnHold
                &&& w.pressed.contains(w.entries[h as int].trigger_key)
                &&& w.entries[h as int].eligible(w.pressed)
            } by {
                let h = w.held[i];
                assert(w.held.contains(h));
                assert(v.held.contains(h) && p(h));
                let entry = v.entries[h as int];
                assert(!entry.needs(k));
                assert forall|j: int| 0 <= j < entry.modifiers.len() implies w.pressed.contains(
                    #[trigger] entry.modifiers[j],
                ) by {
                    assert(entry.modifiers.contains(entry.modifiers[j]));
                }
            }
        },
    }
}

/// The processor: the mapping table, an index from trigger key to handles,
/// the device keys that are down and the holds that keep host keys down.
pub struct KeyMappingProcessor {
    entrys: Vec<KeyMappingEntry>,
    mappings: StringHashMap<Vec<usize>>,
    pressed_key: StringHashSet,
    output_action: Vec<usize>,
}

impl View for KeyMappingProcessor {
    type V = ProcessorView;

    closed spec fn view(&self) -> ProcessorView {
        ProcessorView {
            entries: entry_views(self.entrys@),
            pressed: self.pressed_key@,
            held: self.output_action@,
        }
    }
}

/// The score of `entry` on a press or on a release.
fn score_of(entry: &KeyMappingEntry, press: bool) -> (score: i128)
    ensures
        score == entry@.score(press),
{
    let count: i128 = entry.modifier.len() as i128;
    match entry.trigger {
        KeyTriggerTiming::OnPress => if press {
            count + 1000
        } else {
            count - 1000
        },
        KeyTriggerTiming::OnHold => count + 1000,
        KeyTriggerTiming::OnRelease => if press {
            count - 1000
        } else {
            count + 1000
        },
    }
}

/// Whether `entry` names the device key `k`, as trigger or as modifier.
fn entry_needs(entry: &KeyMappingEntry, k: &str) -> (needed: bool)
    ensures
        needed == entry@.needs(k@),
{
    text_eq(entry.trigger_key.as_str(), k) || list_contains(&entry.modifier, k)
}

/// Whether a hold of `h` gives way to `e`.
fn entry_yields_to(h: &KeyMappingEntry, e: &KeyMappingEntry) -> (yields: bool)
    ensures
        yields == h@.yields_to(e@),
{
    let mut j: usize = 0;
    while j < e.modifier.len()
        invariant
            j <= e.modifier.len(),
            forall|i: int| 0 <= i < j ==> !h@.needs(#[trigger] e@.modifiers[i]),
        decreases e.modifier.len() - j,
    {
        if entry_needs(h, e.modifier[j].as_str()) {
            assert(h@.needs(e@.modifiers[j as int]));
            return true;
        }
        j = j + 1;
    }
    false
}

/// The handles that `index` lists under `k`: none where it has no such key.
pub open spec fn listed(index: Map<Seq<char>, Vec<usize>>, k: Seq<char>) -> Seq<usize> {
    if index.contains_key(k) {
        index[k]@
    } else {
        Seq::empty()
    }
}

/// The entries that a list of mapping configurations describes, in order.
pub open spec fn config_entries(mappings: Seq<KeyMappingConfig>) -> Seq<EntryView> {
    mappings.map_values(|m: KeyMappingConfig| EntryView::of_config(m.keys@, m.action@, m.trigger))
}

/// Whether `handles` holds `h`.
fn holds_handle(handles: &Vec<usize>, h: usize) -> (found: bool)
    ensures
        found == handles@.contains(h),
{
    let mut i: usize = 0;
    while i < handles.len()
        invariant
            i <= handles.len(),
            forall|j: int| 0 <= j < i ==> handles@[j] != h,
        decreases handles.len() - i,
    {
        if handles[i] == h {
            return true;
        }
        i = i + 1;
    }
    false
}

/// Appends a release of each of `tokens` that is not among `keep`.
fn push_releases(actions: &mut Vec<TourAction>, tokens: &Vec<String>, keep: &Vec<String>)
    ensures
        action_views(final(actions)@) == action_views(old(actions)@) + releases(
            without(views_of(tokens@), views_of(keep@)),
        ),
{
    let ghost start = action_views(actions@);
    let ghost all = views_of(tokens@);
    let ghost kept = views_of(keep@);
    let mut j: usize = 0;
    proof {
        reveal(Seq::filter);
        assert(all.take(0) =~= Seq::<Seq<char>>::empty());
        assert(start + releases(without(all.take(0), kept)) =~= start);
    }
    while j < tokens.len()
        invariant
            j <= tokens.len(),
            all == views_of(tokens@),
            kept == views_of(keep@),
            action_views(actions@) == start + releases(without(all.take(j as int), kept)),
        decreases tokens.len() - j,
    {
        let ghost before = actions@;
        proof {
            reveal(Seq::filter);
            assert(all.take(j as int + 1).drop_last() =~= all.take(j as int));
            assert(all.take(j as int + 1).last() == tokens@[j as int]@);
        }
        if !list_contains(keep, tokens[j].as_str()) {
            actions.push(TourAction::KeyRelease(tokens[j].clone()));
            proof {
                let t = tokens@[j as int]@;
                assert(action_views(actions@) =~= action_views(before).push(
                    TourActionView::KeyRelease(t),
                ));
                let sofar = without(all.take(j as int), kept);
                assert(without(all.take(j as int + 1), kept) == sofar.push(t));
                assert(releases(sofar.push(t)) =~= releases(sofar).push(
                    TourActionView::KeyRelease(t),
                ));
                assert(start + releases(sofar).push(TourActionView::KeyRelease(t)) =~= (start
                    + releases(sofar)).push(TourActionView::KeyRelease(t)));
            }
        }
        j = j + 1;
    }
    assert(all.take(j as int) =~= all);
}

/// Appends a press of each of `tokens`.
fn push_presses(actions: &mut Vec<TourAction>, tokens: &Vec<String>)
    ensures
        action_views(final(actions)@) == action_views(old(actions)@) + presses(views_of(tokens@)),
{
    let ghost start = action_views(actions@);
    let ghost all = views_of(tokens@);
    let mut j: usize = 0;
    proof {
        assert(start + presses(all.take(0)) =~= start);
    }
    while j < tokens.len()
        invariant
            j <= tokens.len(),
            all == views_of(tokens@),
            action_views(actions@) == start + presses(all.take(j as int)),
        decreases tokens.len() - j,
    {
        let ghost before = actions@;
        actions.push(TourAction::KeyPress(tokens[j].clone()));
        proof {
            let t = tokens@[j as int]@;
            assert(action_views(actions@) =~= action_views(before).push(TourActionView::KeyPress(t)));
            assert(all.take(j as int + 1) =~= all.take(j as int).push(t));
            assert(presses(all.take(j as int).push(t)) =~= presses(all.take(j as int)).push(
                TourActionView::KeyPress(t),
            ));
            assert(start + presses(all.take(j as int)).push(TourActionView::KeyPress(t)) =~= (start
                + presses(all.take(j as int))).push(TourActionView::KeyPress(t)));
        }
        j = j + 1;
    }
    assert(all.take(j as int) =~= all);
}

/// Why holds are given up.
enum Cause<'a> {
    /// The entry at this handle is taken up.
    TakenUp(usize),
    /// This device key came up.
    CameUp(&'a str),
}

impl<'a> Cause<'a> {
    /// Whether the cause speaks of the table `entries`.
    spec fn fits(self, entries: Seq<EntryView>) -> bool {
        match self {
            Cause::TakenUp(e) => e < entries.len(),
            Cause::CameUp(_) => true,
        }
    }

    /// The test that the hold of an entry is given up for this cause.
    spec fn gone(self, entries: Seq<EntryView>) -> spec_fn(EntryView) -> bool {
        match self {
            Cause::TakenUp(e) => gives_way_to(entries[e as int]),
            Cause::CameUp(k) => hangs_on(k@),
        }
    }
}

impl KeyMappingProcessor {
    /// The handles that the index lists under `k`.
    pub closed spec fn candidates(&self, k: Seq<char>) -> Seq<usize> {
        listed(self.mappings@, k)
    }

    /// The index lists under each key exactly the handles of the entries
    /// that it triggers, in table order, and the state is valid.
    pub open spec fn wf(&self) -> bool {
        &&& forall|k: Seq<char>| #[trigger] self.candidates(k) == handles_for(self@.entries, k)
        &&& self@.valid()
    }

    /// Whether every modifier of the entry at `h` is down.
    fn is_eligible(&self, h: usize) -> (eligible: bool)
        requires
            h < self@.entries.len(),
        ensures
            eligible == self@.entries[h as int].eligible(self@.pressed),
    {
        let entry = &self.entrys[h];
        let mut j: usize = 0;
        while j < entry.modifier.len()
            invariant
                j <= entry.modifier.len(),
                entry@ == self@.entries[h as int],
                forall|i: int|
                    0 <= i < j ==> self@.pressed.contains(#[trigger] entry@.modifiers[i]),
            decreases entry.modifier.len() - j,
        {
            if !self.pressed_key.contains(entry.modifier[j].as_str()) {
                assert(!self@.pressed.contains(entry@.modifiers[j as int]));
                return false;
            }
            j = j + 1;
        }
        true
    }

    /// Selects the entry that `ev` activates: among the entries that the
    /// event's key triggers and whose modifiers are all down, the one with
    /// the highest score, the first of them where several have it.
    pub fn get_actived_action(&self, ev: &InputEvent) -> (selected: Option<usize>)
        requires
            self.wf(),
        ensures
            selected == self@.selected(ev@),
            selected matches Some(h) ==> h < self@.entries.len(),
    {
        let press = match ev {
            InputEvent::KeyPressed(_) => true,
            InputEvent::KeyReleased(_) => false,
        };
        let k = match ev {
            InputEvent::KeyPressed(k) => k,
            InputEvent::KeyReleased(k) => k,
        };
        let count = self.entrys.len();
        proof {
            assert(self@.entries.len() == count);
            assert(self.candidates(k@) == handles_for(self@.entries, k@));
            lemma_handles_for(self@.entries, k@);
        }
        match self.mappings.get(k.as_str()) {
            None => None,
            Some(key_mapping) => {
                let mut best: Option<usize> = None;
                let mut i: usize = 0;
                assert(key_mapping@.take(0) =~= Seq::<usize>::empty());
                while i < key_mapping.len()
                    invariant
                        i <= key_mapping.len(),
                        key_mapping@ == handles_for(self@.entries, k@),
                        forall|j: int|
                            0 <= j < key_mapping.len() ==> #[trigger] key_mapping@[j]
                                < self@.entries.len(),
                        best == best_of(
                            self@.entries,
                            self@.pressed,
                            key_mapping@.take(i as int),
                            press,
                        ),
                        best matches Some(b) ==> b < self@.entries.len(),
                    decreases key_mapping.len() - i,
                {
                    let h = key_mapping[i];
                    proof {
                        let upto = key_mapping@.take(i as int + 1);
                        assert(upto.drop_last() =~= key_mapping@.take(i as int));
                        assert(upto.last() == h);
                    }
                    if self.is_eligible(h) {
                        best = match best {
                            None => Some(h),
                            Some(b) => if score_of(&self.entrys[h], press) > score_of(
                                &self.entrys[b],
                                press,
                            ) {
                                Some(h)
                            } else {
                                Some(b)
                            },
                        };
                    }
                    i = i + 1;
                }
                assert(key_mapping@.take(i as int) =~= key_mapping@);
                best
            },
        }
    }

    /// Whether the hold of the entry at `h` is given up for `cause`.
    fn is_gone(&self, h: usize, cause: &Cause) -> (gone: bool)
        requires
            h < self@.entries.len(),
            cause.fits(self@.entries),
        ensures
            gone == cause.gone(self@.entries)(self@.entries[h as int]),
    {
        match cause {
            Cause::TakenUp(e) => entry_yields_to(&self.entrys[h], &self.entrys[*e]),
            Cause::CameUp(k) => entry_needs(&self.entrys[h], k),
        }
    }

    /// Gives up the holds that go for `cause`: appends a release of each of
    /// their tokens that is not among `keep`, and returns the holds that
    /// stay.
    fn give_up(&self, cause: &Cause, keep: &Vec<String>, actions: &mut Vec<TourAction>) -> (kept: Vec<
        usize,
    >)
        requires
            cause.fits(self@.entries),
            forall|i: int|
                0 <= i < self@.held.len() ==> #[trigger] self@.held[i] < self@.entries.len(),
        ensures
            kept@ == self@.held.filter(stays(self@.entries, cause.gone(self@.entries))),
            action_views(final(actions)@) == action_views(old(actions)@) + shed(
                self@.entries,
                self@.held,
                cause.gone(self@.entries),
                views_of(keep@),
            ),
    {
        let ghost start = action_views(actions@);
        let ghost gone = cause.gone(self@.entries);
        let ghost held = self@.held;
        let mut kept: Vec<usize> = Vec::new();
        let mut i: usize = 0;
        proof {
            reveal(Seq::filter);
            assert(held.take(0) =~= Seq::<usize>::empty());
            assert(start + shed(self@.entries, held.take(0), gone, views_of(keep@)) =~= start);
        }
        while i < self.output_action.len()
            invariant
                i <= self.output_action.len(),
                cause.fits(self@.entries),
                held == self@.held,
                held == self.output_action@,
                gone == cause.gone(self@.entries),
                forall|i: int| 0 <= i < held.len() ==> #[trigger] held[i] < self@.entries.len(),
                kept@ == held.take(i as int).filter(stays(self@.entries, gone)),
                action_views(actions@) == start + shed(
                    self@.entries,
                    held.take(i as int),
                    gone,
                    views_of(keep@),
                ),
            decreases self.output_action.len() - i,
        {
            let h = self.output_action[i];
            proof {
                reveal(Seq::filter);
                assert(held.take(i as int + 1).drop_last() =~= held.take(i as int));
                assert(held.take(i as int + 1).last() == h);
                assert(held[i as int] == h);
            }
            if self.is_gone(h, cause) {
                let tokens = split_on_plus(self.entrys[h].action.as_str());
                let ghost sofar = shed(self@.entries, held.take(i as int), gone, views_of(keep@));
                push_releases(actions, &tokens, keep);
                proof {
                    let more = releases(without(views_of(tokens@), views_of(keep@)));
                    assert(start + sofar + more =~= start + (sofar + more));
                }
            } else {
                kept.push(h);
            }
            i = i + 1;
        }
        assert(held.take(i as int) =~= held);
        kept
    }

    /// Applies one event: selects the entry that it activates, emits the
    /// actions that are due, in order, and updates the pressed keys and the
    /// holds.
    ///
    /// On a press a hold entry first surrenders the holds that give way to
    /// it, keeping down the host keys that it presses itself, then presses
    /// its own. On a release every hold that needs the key is given up.
    pub fn process(&mut self, ev: InputEvent) -> (actions: Vec<TourAction>)
        requires
            old(self).wf(),
        ensures
            final(self).wf(),
            final(self)@ == old(self)@.after(ev@),
            action_views(actions@) == old(self)@.emitted(ev@),
    {
        let selected = self.get_actived_action(&ev);
        let mut key_actions: Vec<TourAction> = Vec::new();
        let count = self.entrys.len();
        proof {
            assert(self@.entries.len() == count);
            lemma_after_valid(self@, ev@);
            assert(action_views(key_actions@) =~= Seq::<TourActionView>::empty());
        }
        match ev {
            InputEvent::KeyPressed(k) => {
                if let Some(e) = selected {
                    match self.entrys[e].trigger {
                        KeyTriggerTiming::OnPress => {
                            key_actions.push(TourAction::KeyClick(self.entrys[e].action.clone()));
                            assert(action_views(key_actions@) =~= seq![
                                TourActionView::KeyClick(self@.entries[e as int].action),
                            ]);
                        },
                        KeyTriggerTiming::OnHold => {
                            let new_keys = split_on_plus(self.entrys[e].action.as_str());
                            let cause = Cause::TakenUp(e);
                            let mut kept = self.give_up(&cause, &new_keys, &mut key_actions);
                            push_presses(&mut key_actions, &new_keys);
                            if !holds_handle(&kept, e) {
                                kept.push(e);
                            }
                            self.output_action = kept;
                        },
                        KeyTriggerTiming::OnRelease => {},
                    }
                }
                self.pressed_key.insert(k);
            },
            InputEvent::KeyReleased(k) => {
                if let Some(e) = selected {
                    match self.entrys[e].trigger {
                        KeyTriggerTiming::OnRelease => {
                            key_actions.push(TourAction::KeyClick(self.entrys[e].action.clone()));
                            assert(action_views(key_actions@) =~= seq![
                                TourActionView::KeyClick(self@.entries[e as int].action),
                            ]);
                        },
                        _ => {},
                    }
                }
                let keep: Vec<String> = Vec::new();
                let cause = Cause::CameUp(k.as_str());
                assert(views_of(keep@) =~= Seq::<Seq<char>>::empty());
                let kept = self.give_up(&cause, &keep, &mut key_actions);
                self.output_action = kept;
                self.pressed_key.remove(k.as_str());
            },
        }
        proof {
            assert(self@.entries == old(self)@.entries);
            assert(self@.held =~= old(self)@.after(ev@).held);
            assert(self@.pressed =~= old(self)@.after(ev@).pressed);
            assert(action_views(key_actions@) =~= old(self)@.emitted(ev@));
            assert(forall|k: Seq<char>| self.candidates(k) == old(self).candidates(k));
        }
        key_actions
    }

    /// Builds the processor for an ordered list of mappings: one entry per
    /// mapping, in order, indexed by trigger key; no device key is down and
    /// nothing is held.
    pub fn from_config(mappings: &Vec<KeyMappingConfig>) -> (processor: Self)
        requires
            forall|i: int| 0 <= i < mappings.len() ==> (#[trigger] mappings[i]).keys@.len() > 0,
        ensures
            processor.wf(),
            processor@.entries == config_entries(mappings@),
            processor@.pressed == Set::<Seq<char>>::empty(),
            processor@.held == Seq::<usize>::empty(),
    {
        let mut trigger_key_map: StringHashMap<Vec<usize>> = StringHashMap::new();
        let mut entrys: Vec<KeyMappingEntry> = Vec::new();
        let mut i: usize = 0;
        proof {
            assert(entry_views(entrys@) =~= config_entries(mappings@.take(0)));
        }
        while i < mappings.len()
            invariant
                i <= mappings.len(),
                entrys.len() == i,
                entry_views(entrys@) == config_entries(mappings@.take(i as int)),
                forall|k: Seq<char>|
                    #[trigger] listed(trigger_key_map@, k) == handles_for(entry_views(entrys@), k),
            decreases mappings.len() - i,
        {
            let m = &mappings[i];
            let mut pieces = split_on_plus(m.keys.as_str());
            let ghost all = pieces@;
            proof {
                crate::text::lemma_split_plus_nonempty(m.keys@);
                assert(views_of(all).len() == all.len());
            }
            let trigger_key = pieces.pop().unwrap();
            let mut handles = match trigger_key_map.get(trigger_key.as_str()) {
                Some(list) => list.clone(),
                None => Vec::new(),
            };
            let ghost old_index = trigger_key_map@;
            let ghost old_entries = entry_views(entrys@);
            assert(handles@ =~= listed(old_index, trigger_key@));
            handles.push(entrys.len());
            trigger_key_map.insert(trigger_key.clone(), handles);
            let entry = KeyMappingEntry {
                trigger_key,
                action: m.action.clone(),
                modifier: pieces,
                trigger: m.trigger,
            };
            proof {
                assert(views_of(all).last() == all.last()@);
                assert(views_of(all).drop_last() =~= views_of(pieces@));
                assert(entry@ == EntryView::of_config(m.keys@, m.action@, m.trigger));
            }
            entrys.push(entry);
            proof {
                let new_entries = entry_views(entrys@);
                assert(new_entries =~= old_entries.push(entry@));
                assert(new_entries.drop_last() =~= old_entries);
                assert(mappings@.take(i as int + 1) =~= mappings@.take(i as int).push(*m));
                assert(new_entries =~= config_entries(mappings@.take(i as int + 1)));
                assert forall|k: Seq<char>| #[trigger]
                    listed(trigger_key_map@, k) == handles_for(new_entries, k) by {
                    assert(listed(old_index, k) == handles_for(old_entries, k));
                }
            }
            i = i + 1;
        }
        assert(mappings@.take(i as int) =~= mappings@);
        KeyMappingProcessor {
            entrys,
            mappings: trigger_key_map,
            pressed_key: StringHashSet::new(),
            output_action: Vec::new(),
        }
    }
}

/// The round trip of a hold: with the one mapping from the device key `k`
/// to `action`, held while `k` is down, pressing `k` presses the tokens of
/// `action` in order, releasing `k` then releases them in order, and after
/// that no device key is down and nothing is held.
pub proof fn lemma_hold_round_trip(k: Seq<char>, action: Seq<char>)
    requires
        !k.contains('+'),
    ensures
        ({
            let start = ProcessorView {
                entries: seq![EntryView::of_config(k, action, KeyTriggerTiming::OnHold)],
                pressed: Set::empty(),
                held: Seq::empty(),
            };
            let down = start.after(InputEventView::KeyPressed(k));
            let up = down.after(InputEventView::KeyReleased(k));
            &&& start.emitted(InputEventView::KeyPressed(k)) == presses(split_plus(action))
            &&& down.emitted(InputEventView::KeyReleased(k)) == releases(split_plus(action))
            &&& up.pressed == Set::<Seq<char>>::empty()
            &&& up.held == Seq::<usize>::empty()
        }),
{
    let entry = EntryView::of_config(k, action, KeyTriggerTiming::OnHold);
    let entries = seq![entry];
    let start = ProcessorView { entries, pressed: Set::empty(), held: Seq::empty() };
    let press = InputEventView::KeyPressed(k);
    let release = InputEventView::KeyReleased(k);
    let tokens = split_plus(action);
    lemma_split_plus_single(k);
    assert(entry.trigger_key == k);
    assert(entry.modifiers =~= Seq::<Seq<char>>::empty());
    assert(entries.drop_last() =~= Seq::<EntryView>::empty());
    let handles = handles_for(entries, k);
    assert(handles =~= seq![0usize]) by {
        assert(handles_for(entries.drop_last(), k) =~= Seq::<usize>::empty());
    }
    assert(handles.drop_last() =~= Seq::<usize>::empty());
    assert(handles.last() == 0usize);
    assert(entries[0] == entry);
    assert(entry.eligible(start.pressed));
    assert(best_of(entries, start.pressed, handles.drop_last(), true) == None::<usize>);
    assert(best_of(entries, start.pressed, handles, true) == Some(0usize));
    assert(start.selected(press) == Some(0usize));
    reveal(Seq::filter);
    let gone = gives_way_to(entry);
    assert(shed(entries, start.held, gone, tokens) =~= Seq::<TourActionView>::empty());
    assert(start.emitted(press) =~= presses(tokens));
    let down = start.after(press);
    assert(start.held.filter(stays(entries, gone)) =~= Seq::<usize>::empty());
    assert(down.held =~= seq![0usize]);
    assert(entry.eligible(down.pressed));
    assert(best_of(entries, down.pressed, handles.drop_last(), false) == None::<usize>);
    assert(best_of(entries, down.pressed, handles, false) == Some(0usize));
    assert(down.selected(release) == Some(0usize));
    let none = Seq::<Seq<char>>::empty();
    assert(entry.needs(k));
    assert(down.held.drop_last() =~= Seq::<usize>::empty());
    assert(without(tokens, none) =~= tokens) by {
        lemma_without_nothing(tokens);
    }
    assert(shed(entries, down.held, hangs_on(k), none) =~= releases(tokens)) by {
        assert(shed(entries, down.held.drop_last(), hangs_on(k), none) =~= Seq::<
            TourActionView,
        >::empty());
    }
    assert(down.emitted(release) =~= releases(tokens));
    let up = down.after(release);
    assert(up.held =~= Seq::<usize>::empty()) by {
        assert(down.held.drop_last().filter(stays(entries, hangs_on(k))) =~= Seq::<usize>::empty());
    }
    assert(up.pressed =~= Set::<Seq<char>>::empty());
}

/// Keeping no token takes none away.
pub proof fn lemma_without_nothing(tokens: Seq<Seq<char>>)
    ensures
        without(tokens, Seq::empty()) == tokens,
    decreases tokens.len(),
{
    reveal(Seq::filter);
    if tokens.len() > 0 {
        lemma_without_nothing(tokens.drop_last());
        assert(tokens.drop_last().push(tokens.last()) =~= tokens);
    }
}

} // verus!
