//! The injector: turns actions into host key and scroll operations and keeps
//! track of the host keys it holds down.

use crate::host_key::{host_key_of, read_host_key, HostKey};
use crate::seq_facts::{lemma_filter_members, lemma_filter_none};
use crate::text::{split_on_plus, split_plus, text_eq, to_uppercase, uppercase_of, views_of};
use vstd::prelude::*;
use vstd::string::StringExecFns;

verus! {

/// What the mapping processor asks of the injector.
#[derive(Debug, Clone, PartialEq, Eq)]
pub enum TourAction {
    /// Hold the host key named by the token down.
    KeyPress(String),
    /// Press and release the `+`-joined host keys, or scroll.
    KeyClick(String),
    /// Let the host key named by the token go.
    KeyRelease(String),
    /// A message for the user interface; the injector ignores it.
    UiAction(String),
}

/// A `TourAction` with its text as a character sequence.
pub ghost enum TourActionView {
    KeyPress(Seq<char>),
    KeyClick(Seq<char>),
    KeyRelease(Seq<char>),
    UiAction(Seq<char>),
}

impl View for TourAction {
    type V = TourActionView;

    open spec fn view(&self) -> TourActionView {
        match self {
            TourAction::KeyPress(s) => TourActionView::KeyPress(s@),
            TourAction::KeyClick(s) => TourActionView::KeyClick(s@),
            TourAction::KeyRelease(s) => TourActionView::KeyRelease(s@),
            TourAction::UiAction(s) => TourActionView::UiAction(s@),
        }
    }
}

/// The views of a sequence of actions, in order.
pub open spec fn action_views(actions: Seq<TourAction>) -> Seq<TourActionView> {
    actions.map_values(|a: TourAction| a@)
}

/// One operation on the host.
#[derive(Debug, Clone, Copy, PartialEq, Eq, Structural)]
pub enum HostOp {
    /// Depress the key.
    Press(HostKey),
    /// Let the key go.
    Release(HostKey),
    /// Scroll vertically by this many notches; negative is up.
    Scroll(i32),
}

/// Why an action could not be carried out.
#[derive(Debug, Clone, PartialEq, Eq)]
pub enum KeySenderError {
    /// The token, here in uppercase, names no host key.
    UnknownKey(String),
}

/// What parsing a token gives: its key, or the token in uppercase where it
/// names none. Tokens are read without regard to case.
pub open spec fn parsed(token: Seq<char>) -> Result<HostKey, Seq<char>> {
    match host_key_of(uppercase_of(token)) {
        Some(k) => Ok(k),
        None => Err(uppercase_of(token)),
    }
}

/// What parsing each token gives: the keys in order, or what the first
/// token that names no key gives.
pub open spec fn parsed_all(tokens: Seq<Seq<char>>) -> Result<Seq<HostKey>, Seq<char>>
    decreases tokens.len(),
{
    if tokens.len() == 0 {
        Ok(Seq::empty())
    } else {
        match parsed_all(tokens.drop_last()) {
            Err(t) => Err(t),
            Ok(keys) => match parsed(tokens.last()) {
                Ok(k) => Ok(keys.push(k)),
                Err(t) => Err(t),
            },
        }
    }
}

/// The test that a key is not down.
pub open spec fn not_in(active: Set<HostKey>) -> spec_fn(HostKey) -> bool {
    |k: HostKey| !active.contains(k)
}

/// A press of each key, in order.
pub open spec fn key_presses(keys: Seq<HostKey>) -> Seq<HostOp> {
    keys.map_values(|k: HostKey| HostOp::Press(k))
}

/// A release of each key, in order.
pub open spec fn key_releases(keys: Seq<HostKey>) -> Seq<HostOp> {
    keys.map_values(|k: HostKey| HostOp::Release(k))
}

/// The operations of a click on `keys` while `active` is down: the keys that
/// are not down already are pressed in order and then released in reverse
/// order; the others are left alone.
pub open spec fn click_ops(keys: Seq<HostKey>, active: Set<HostKey>) -> Seq<HostOp> {
    let fresh = keys.filter(not_in(active));
    key_presses(fresh) + key_releases(fresh.reverse())
}

/// The scroll that a click stands for, by its text in uppercase: one notch
/// up or one notch down for the two wheel names, none for any other text.
pub open spec fn wheel_of(upper: Seq<char>) -> Option<HostOp> {
    if upper == "WHEEL_UP"@ {
        Some(HostOp::Scroll(-1i32))
    } else if upper == "WHEEL_DOWN"@ {
        Some(HostOp::Scroll(1i32))
    } else {
        None
    }
}

/// What an action does while `active` is down: the keys that are down
/// afterwards and the host operations in order, or the uppercase token that
/// names no key, in which case nothing is done.
pub open spec fn sent(active: Set<HostKey>, action: TourActionView) -> Result<
    (Set<HostKey>, Seq<HostOp>),
    Seq<char>,
> {
    match action {
        TourActionView::KeyPress(s) => match parsed(s) {
            Ok(k) => Ok((active.insert(k), seq![HostOp::Press(k)])),
            Err(t) => Err(t),
        },
        TourActionView::KeyRelease(s) => match parsed(s) {
            Ok(k) => Ok((active.remove(k), seq![HostOp::Release(k)])),
            Err(t) => Err(t),
        },
        TourActionView::KeyClick(s) => match wheel_of(uppercase_of(s)) {
            Some(scroll) => Ok((active, seq![scroll])),
            None => match parsed_all(split_plus(s)) {
                Ok(keys) => Ok((active, click_ops(keys, active))),
                Err(t) => Err(t),
            },
        },
        TourActionView::UiAction(_) => Ok((active, Seq::empty())),
    }
}

impl KeySenderError {
    /// The error as a sentence.
    pub fn message(&self) -> (text: String)
        ensures
            match self {
                KeySenderError::UnknownKey(t) => text@ == "the key `"@ + t@ + "` is not available"@,
            },
    {
        match self {
            KeySenderError::UnknownKey(t) => {
                let mut text = String::from_str("the key `");
                text.append(t.as_str());
                text.append("` is not available");
                text
            },
        }
    }
}

/// The injector's state: the host keys that it holds down.
#[derive(Debug)]
pub struct KeySender {
    active_key: Vec<HostKey>,
}

impl View for KeySender {
    type V = Set<HostKey>;

    closed spec fn view(&self) -> Set<HostKey> {
        self.active_key@.to_set()
    }
}

/// The test that a key is another than `key`.
pub open spec fn other_than(key: HostKey) -> spec_fn(HostKey) -> bool {
    |k: HostKey| k != key
}

impl KeySender {
    /// The record is a set kept in a list: no key occurs in it twice.
    #[verifier::type_invariant]
    spec fn no_key_twice(&self) -> bool {
        self.active_key@.no_duplicates()
    }

    /// An injector that holds no key.
    pub fn new() -> (sender: Self)
        ensures
            sender@ == Set::<HostKey>::empty(),
    {
        let sender = KeySender { active_key: Vec::new() };
        assert(sender@ =~= Set::<HostKey>::empty());
        sender
    }

    /// Reads a token that is in uppercase already.
    pub fn parse_uppercase(upper: &str) -> (key: Option<HostKey>)
        ensures
            key == host_key_of(upper@),
    {
        read_host_key(upper)
    }

    /// Reads a token without regard to case. A token that names no key is
    /// handed back in uppercase.
    pub fn parse_key(key_str: &str) -> (key: Result<HostKey, KeySenderError>)
        ensures
            match key {
                Ok(k) => parsed(key_str@) == Ok::<HostKey, Seq<char>>(k),
                Err(KeySenderError::UnknownKey(t)) => parsed(key_str@) == Err::<HostKey, Seq<char>>(
                    t@,
                ),
            },
    {
        let uppercase_key = to_uppercase(key_str);
        match KeySender::parse_uppercase(uppercase_key.as_str()) {
            Some(k) => Ok(k),
            None => Err(KeySenderError::UnknownKey(uppercase_key)),
        }
    }

    /// Whether the injector holds `key` down.
    pub fn is_active(&self, key: HostKey) -> (active: bool)
        ensures
            active == self@.contains(key),
    {
        let mut i: usize = 0;
        while i < self.active_key.len()
            invariant
                i <= self.active_key.len(),
                forall|j: int| 0 <= j < i ==> self.active_key@[j] != key,
            decreases self.active_key.len() - i,
        {
            if self.active_key[i] == key {
                assert(self.active_key@.contains(key));
                return true;
            }
            i = i + 1;
        }
        assert(!self.active_key@.contains(key));
        false
    }

    /// Presses `key`: notes it as down and returns the operation.
    pub fn press(&mut self, key: HostKey) -> (op: HostOp)
        ensures
            final(self)@ == old(self)@.insert(key),
            op == HostOp::Press(key),
    {
        proof {
            use_type_invariant(&*self);
        }
        if !self.is_active(key) {
            let mut keys: Vec<HostKey> = Vec::new();
            core::mem::swap(&mut self.active_key, &mut keys);
            keys.push(key);
            proof {
                let before = old(self).active_key@;
                assert(!before.contains(key));
                assert(keys@ == before.push(key));
                assert forall|i: int, j: int|
                    0 <= i < keys@.len() && 0 <= j < keys@.len() && i != j implies keys@[i]
                    != keys@[j] by {
                    if i < before.len() {
                        assert(before.contains(before[i]));
                    }
                    if j < before.len() {
                        assert(before.contains(before[j]));
                    }
                }
            }
            core::mem::swap(&mut self.active_key, &mut keys);
            proof {
                let before = old(self).active_key@;
                let after = self.active_key@;
                assert(after == before.push(key));
                assert forall|k: HostKey| after.contains(k) <==> before.contains(k) || k == key by {
                    if before.contains(k) {
                        let i = choose|i: int| 0 <= i < before.len() && before[i] == k;
                        assert(after[i] == k);
                    }
                    if k == key {
                        assert(after[before.len() as int] == k);
                    }
                }
                assert(self@ =~= old(self)@.insert(key));
            }
        } else {
            assert(self@ =~= old(self)@.insert(key));
        }
        HostOp::Press(key)
    }

    /// Releases `key`: notes it as up and returns the operation.
    pub fn release(&mut self, key: HostKey) -> (op: HostOp)
        ensures
            final(self)@ == old(self)@.remove(key),
            op == HostOp::Release(key),
    {
        let ghost all = self.active_key@;
        let ghost test = other_than(key);
        let mut rest: Vec<HostKey> = Vec::new();
        let mut i: usize = 0;
        proof {
            use_type_invariant(&*self);
            reveal(Seq::filter);
            assert(all.take(0) =~= Seq::<HostKey>::empty());
        }
        while i < self.active_key.len()
            invariant
                i <= self.active_key.len(),
                all == self.active_key@,
                test == other_than(key),
                rest@ == all.take(i as int).filter(test),
            decreases self.active_key.len() - i,
        {
            let k = self.active_key[i];
            proof {
                reveal(Seq::filter);
                assert(all.take(i as int + 1).drop_last() =~= all.take(i as int));
                assert(all.take(i as int + 1).last() == k);
            }
            if k != key {
                rest.push(k);
            }
            i = i + 1;
        }
        proof {
            assert(all.take(i as int) =~= all);
            lemma_filter_members(all, test);
            assert(rest@.to_set() =~= all.to_set().remove(key));
        }
        self.active_key = rest;
        HostOp::Release(key)
    }

    /// The scroll that a click stands for, by its text in uppercase.
    pub fn wheel(upper: &str) -> (scroll: Option<HostOp>)
        ensures
            scroll == wheel_of(upper@),
    {
        if text_eq(upper, "WHEEL_UP") {
            Some(HostOp::Scroll(-1))
        } else if text_eq(upper, "WHEEL_DOWN") {
            Some(HostOp::Scroll(1))
        } else {
            None
        }
    }

    /// Reads every token of `tokens`, stopping at the first that names no
    /// key.
    fn parse_keys(tokens: &Vec<String>) -> (keys: Result<Vec<HostKey>, KeySenderError>)
        ensures
            match keys {
                Ok(ks) => parsed_all(views_of(tokens@)) == Ok::<Seq<HostKey>, Seq<char>>(ks@),
                Err(KeySenderError::UnknownKey(t)) => parsed_all(views_of(tokens@)) == Err::<
                    Seq<HostKey>,
                    Seq<char>,
                >(t@),
            },
    {
        let ghost all = views_of(tokens@);
        let mut keys: Vec<HostKey> = Vec::new();
        let mut i: usize = 0;
        proof {
            assert(all.take(0) =~= Seq::<Seq<char>>::empty());
        }
        while i < tokens.len()
            invariant
                i <= tokens.len(),
                all == views_of(tokens@),
                parsed_all(all.take(i as int)) == Ok::<Seq<HostKey>, Seq<char>>(keys@),
            decreases tokens.len() - i,
        {
            proof {
                assert(all.take(i as int + 1).drop_last() =~= all.take(i as int));
                assert(all.take(i as int + 1).last() == tokens@[i as int]@);
            }
            match KeySender::parse_key(tokens[i].as_str()) {
                Ok(k) => {
                    keys.push(k);
                },
                Err(e) => {
                    proof {
                        lemma_parsed_all_fails(all, i as int + 1);
                    }
                    return Err(e);
                },
            }
            i = i + 1;
        }
        assert(all.take(i as int) =~= all);
        Ok(keys)
    }

    /// Clicks `keys`: returns a press of each key that is not down already,
    /// in order, then a release of each of those in reverse order. The
    /// record stays as it is.
    pub fn click(&self, keys: &Vec<HostKey>) -> (ops: Vec<HostOp>)
        ensures
            ops@ == click_ops(keys@, self@),
    {
        let ghost test = not_in(self@);
        let mut ops: Vec<HostOp> = Vec::new();
        let mut to_be_release: Vec<HostKey> = Vec::new();
        let mut i: usize = 0;
        proof {
            reveal(Seq::filter);
            assert(keys@.take(0) =~= Seq::<HostKey>::empty());
            assert(ops@ =~= key_presses(to_be_release@));
        }
        while i < keys.len()
            invariant
                i <= keys.len(),
                test == not_in(self@),
                to_be_release@ == keys@.take(i as int).filter(test),
                ops@ == key_presses(to_be_release@),
            decreases keys.len() - i,
        {
            let key = keys[i];
            proof {
                reveal(Seq::filter);
                assert(keys@.take(i as int + 1).drop_last() =~= keys@.take(i as int));
                assert(keys@.take(i as int + 1).last() == key);
            }
            if !self.is_active(key) {
                let ghost before = to_be_release@;
                ops.push(HostOp::Press(key));
                to_be_release.push(key);
                assert(key_presses(before.push(key)) =~= key_presses(before).push(HostOp::Press(key)));
            }
            i = i + 1;
        }
        assert(keys@.take(i as int) =~= keys@);
        let ghost fresh = to_be_release@;
        let mut j: usize = to_be_release.len();
        proof {
            assert(fresh.reverse().take(0) =~= Seq::<HostKey>::empty());
            assert(ops@ =~= key_presses(fresh) + key_releases(fresh.reverse().take(0)));
        }
        while j > 0
            invariant
                j <= to_be_release.len(),
                fresh == to_be_release@,
                ops@ == key_presses(fresh) + key_releases(
                    fresh.reverse().take(fresh.len() - j as int),
                ),
            decreases j,
        {
            j = j - 1;
            let key = to_be_release[j];
            let ghost before = ops@;
            ops.push(HostOp::Release(key));
            proof {
                let done = fresh.len() - j as int - 1;
                let back = fresh.reverse();
                assert(back[done] == key);
                assert(back.take(done + 1) =~= back.take(done).push(key));
                assert(key_releases(back.take(done).push(key)) =~= key_releases(back.take(done)).push(
                    HostOp::Release(key),
                ));
                assert(ops@ =~= key_presses(fresh) + key_releases(back.take(done + 1)));
            }
        }
        assert(fresh.reverse().take(fresh.len() as int) =~= fresh.reverse());
        ops
    }

    /// Carries out one action: returns the host operations that it asks
    /// for, in order, and keeps the record of the keys that are down.
    ///
    /// A press or a release parses its token and notes the key as down or
    /// up. A click scrolls for the two wheel names; else it presses the keys
    /// that are not down already and releases those in reverse order, and
    /// leaves the record as it was. A token that names no key fails the
    /// whole action: nothing is pressed and the record stays.
    pub fn send_key(&mut self, action: &TourAction) -> (result: Result<Vec<HostOp>, KeySenderError>)
        ensures
            match result {
                Ok(ops) => sent(old(self)@, action@) == Ok::<(Set<HostKey>, Seq<HostOp>), Seq<char>>(
                    (final(self)@, ops@),
                ),
                Err(KeySenderError::UnknownKey(t)) => sent(old(self)@, action@) == Err::<
                    (Set<HostKey>, Seq<HostOp>),
                    Seq<char>,
                >(t@) && final(self)@ == old(self)@,
            },
    {
        match action {
            TourAction::KeyPress(s) => {
                match KeySender::parse_key(s.as_str()) {
                    Ok(key) => {
                        let mut ops: Vec<HostOp> = Vec::new();
                        ops.push(self.press(key));
                        assert(ops@ =~= seq![HostOp::Press(key)]);
                        Ok(ops)
                    },
                    Err(e) => Err(e),
                }
            },
            TourAction::KeyClick(s) => {
                let upper = to_uppercase(s.as_str());
                match KeySender::wheel(upper.as_str()) {
                    Some(scroll) => {
                        let mut ops: Vec<HostOp> = Vec::new();
                        ops.push(scroll);
                        assert(ops@ =~= seq![scroll]);
                        Ok(ops)
                    },
                    None => {
                        let tokens = split_on_plus(s.as_str());
                        match KeySender::parse_keys(&tokens) {
                            Ok(keys) => Ok(self.click(&keys)),
                            Err(e) => Err(e),
                        }
                    },
                }
            },
            TourAction::KeyRelease(s) => {
                match KeySender::parse_key(s.as_str()) {
                    Ok(key) => {
                        let mut ops: Vec<HostOp> = Vec::new();
                        ops.push(self.release(key));
                        assert(ops@ =~= seq![HostOp::Release(key)]);
                        Ok(ops)
                    },
                    Err(e) => Err(e),
                }
            },
            TourAction::UiAction(_) => {
                let ops: Vec<HostOp> = Vec::new();
                assert(ops@ =~= Seq::<HostOp>::empty());
                Ok(ops)
            },
        }
    }
}

/// Once a token names no key, what comes after it does not matter.
pub proof fn lemma_parsed_all_fails(tokens: Seq<Seq<char>>, n: int)
    requires
        0 <= n <= tokens.len(),
        parsed_all(tokens.take(n)) is Err,
    ensures
        parsed_all(tokens) == parsed_all(tokens.take(n)),
    decreases tokens.len() - n,
{
    if n == tokens.len() {
        assert(tokens.take(n) =~= tokens);
    } else {
        assert(tokens.drop_last().take(n) =~= tokens.take(n));
        lemma_parsed_all_fails(tokens.drop_last(), n);
    }
}

/// A click whose keys are all down already presses and releases nothing:
/// it asks for no operation at all, or for the one scroll of a wheel name,
/// and leaves the record as it was.
pub proof fn lemma_click_of_held_keys(active: Set<HostKey>, s: Seq<char>, keys: Seq<HostKey>)
    requires
        parsed_all(split_plus(s)) == Ok::<Seq<HostKey>, Seq<char>>(keys),
        forall|i: int| 0 <= i < keys.len() ==> active.contains(#[trigger] keys[i]),
    ensures
        click_ops(keys, active) == Seq::<HostOp>::empty(),
        sent(active, TourActionView::KeyClick(s)) matches Ok(done) && done.0 == active && (
        forall|i: int| 0 <= i < done.1.len() ==> #[trigger] done.1[i] is Scroll),
        wheel_of(uppercase_of(s)) is None ==> sent(active, TourActionView::KeyClick(s)) == Ok::<
            (Set<HostKey>, Seq<HostOp>),
            Seq<char>,
        >((active, Seq::<HostOp>::empty())),
{
    lemma_filter_none(keys, not_in(active));
    let fresh = keys.filter(not_in(active));
    assert(fresh.reverse() =~= Seq::<HostKey>::empty());
    assert(click_ops(keys, active) =~= Seq::<HostOp>::empty());
}

} // verus!
