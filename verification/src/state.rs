//! The state-diff engine: it keeps the last known state of every button and
//! encoder and turns each new sample into press, release and twist events.

use vstd::prelude::*;
use crate::error::MirajazzError;
use crate::types::DeviceInput;

verus! {

/// Tells what changed in button states
#[derive(Copy, Clone, Debug, Hash, PartialEq, Eq)]
pub enum DeviceStateUpdate {
    /// Button got pressed down
    ButtonDown(u8),
    /// Button got released
    ButtonUp(u8),
    /// Encoder got pressed down
    EncoderDown(u8),
    /// Encoder was released from being pressed down
    EncoderUp(u8),
    /// Encoder was twisted
    EncoderTwist(u8, i8),
}

/// The last known state of the device
pub struct DeviceState {
    /// Buttons include Touch Points state
    pub buttons: Vec<bool>,
    pub encoders: Vec<bool>,
}

/// The mathematical value of a [`DeviceState`]: one snapshot per namespace.
pub struct DeviceStateView {
    pub buttons: Seq<bool>,
    pub encoders: Seq<bool>,
}

impl View for DeviceState {
    type V = DeviceStateView;

    open spec fn view(&self) -> DeviceStateView {
        DeviceStateView { buttons: self.buttons@, encoders: self.encoders@ }
    }
}

impl Default for DeviceState {
    fn default() -> (state: Self)
        ensures
            state@.buttons == Seq::<bool>::empty(),
            state@.encoders == Seq::<bool>::empty(),
    {
        DeviceState { buttons: Vec::new(), encoders: Vec::new() }
    }
}

/// The index that an update carries for position `i` of a sample: the
/// position, as far as a byte holds it.
pub open spec fn index_byte(i: int) -> u8 {
    (i % 256) as u8
}

/// The press event of position `i`, of an encoder or of a button.
pub open spec fn down(encoder: bool, i: int) -> DeviceStateUpdate {
    if encoder {
        DeviceStateUpdate::EncoderDown(index_byte(i))
    } else {
        DeviceStateUpdate::ButtonDown(index_byte(i))
    }
}

/// The release event of position `i`, of an encoder or of a button.
pub open spec fn up(encoder: bool, i: int) -> DeviceStateUpdate {
    if encoder {
        DeviceStateUpdate::EncoderUp(index_byte(i))
    } else {
        DeviceStateUpdate::ButtonUp(index_byte(i))
    }
}

/// The events of one position, whose stored state is `mine` and whose sampled
/// state is `their`.
///
/// A device that reports both states gives a press on a change to pressed
/// and a release on a change to released. A device that reports only a pulse
/// gives a press and a release for every sampled `true`, whatever was stored.
pub open spec fn edge(dual: bool, encoder: bool, i: int, their: bool, mine: bool) -> Seq<
    DeviceStateUpdate,
> {
    if !dual {
        if their {
            seq![down(encoder, i), up(encoder, i)]
        } else {
            Seq::empty()
        }
    } else if their != mine {
        if their {
            seq![down(encoder, i)]
        } else {
            seq![up(encoder, i)]
        }
    } else {
        Seq::empty()
    }
}

/// The events of the first `n` positions, each position's events in turn.
pub open spec fn edges(dual: bool, encoder: bool, theirs: Seq<bool>, mine: Seq<bool>, n: nat) -> Seq<
    DeviceStateUpdate,
> {
    Seq::new(n, |i: int| edge(dual, encoder, i, theirs[i], mine[i])).flatten()
}

/// The events of a sample `theirs` against the stored snapshot `mine`: those
/// of every position that both have, in ascending order.
pub open spec fn snapshot_updates(dual: bool, encoder: bool, theirs: Seq<bool>, mine: Seq<bool>) -> Seq<
    DeviceStateUpdate,
> {
    let n = if theirs.len() <= mine.len() {
        theirs.len()
    } else {
        mine.len()
    };
    edges(dual, encoder, theirs, mine, n)
}

/// The twist event of position `i`, if its delta is not zero.
pub open spec fn twist(i: int, delta: i8) -> Seq<DeviceStateUpdate> {
    if delta != 0 {
        seq![DeviceStateUpdate::EncoderTwist(index_byte(i), delta)]
    } else {
        Seq::empty()
    }
}

/// The twist events of the first `n` positions of `deltas`, in ascending
/// order.
pub open spec fn twists(deltas: Seq<i8>, n: nat) -> Seq<DeviceStateUpdate> {
    Seq::new(n, |i: int| twist(i, deltas[i])).flatten()
}

/// The events that `input` gives on a device whose stored state is `state`.
pub open spec fn updates_of(dual: bool, state: DeviceStateView, input: DeviceInput) -> Seq<
    DeviceStateUpdate,
> {
    match input {
        DeviceInput::NoData => Seq::empty(),
        DeviceInput::ButtonStateChange(buttons) => snapshot_updates(dual, false, buttons@, state.buttons),
        DeviceInput::EncoderStateChange(encoders) => snapshot_updates(
            dual,
            true,
            encoders@,
            state.encoders,
        ),
        DeviceInput::EncoderTwist(deltas) => twists(deltas@, deltas@.len()),
    }
}

/// The stored state after `input`: a snapshot replaces the stored one of its
/// namespace; twists and empty input leave the state as it is.
pub open spec fn state_after(state: DeviceStateView, input: DeviceInput) -> DeviceStateView {
    match input {
        DeviceInput::NoData => state,
        DeviceInput::ButtonStateChange(buttons) => DeviceStateView { buttons: buttons@, ..state },
        DeviceInput::EncoderStateChange(encoders) => DeviceStateView { encoders: encoders@, ..state },
        DeviceInput::EncoderTwist(_) => state,
    }
}

/// What a raw report asks of the classifier: nothing where no report came or
/// the report is a heartbeat (first byte zero); else the index byte at
/// offset 9 and the state byte, which is the byte at offset 10 on a device
/// that reports both states and a constant `1` on one that reports a pulse.
pub open spec fn report_request(dual: bool, data: Option<Seq<u8>>) -> Option<(u8, u8)> {
    match data {
        None => None,
        Some(report) => if report[0] == 0 {
            None
        } else {
            Some(
                (
                    report[9],
                    if dual {
                        report[10]
                    } else {
                        1u8
                    },
                ),
            )
        },
    }
}

/// The bytes of a report that was read, or `None` where none was.
pub open spec fn report_bytes(data: Option<Vec<u8>>) -> Option<Seq<u8>> {
    match data {
        Some(report) => Some(report@),
        None => None,
    }
}

/// Classifies one raw report: no report and a heartbeat are `NoData`; any
/// other report goes to `process_input` as its index and state bytes, and what
/// that returns is the result.
pub fn classify_report<F: Fn(u8, u8) -> Result<DeviceInput, MirajazzError>>(
    dual: bool,
    data: Option<Vec<u8>>,
    process_input: &F,
) -> (input: Result<DeviceInput, MirajazzError>)
    requires
        data matches Some(report) ==> report@.len() >= 11,
        forall|index: u8, state: u8| call_requires(*process_input, (index, state)),
    ensures
        match report_request(dual, report_bytes(data)) {
            None => input == Ok::<DeviceInput, MirajazzError>(DeviceInput::NoData),
            Some(request) => call_ensures(*process_input, request, input),
        },
{
    match data {
        None => Ok(DeviceInput::NoData),
        Some(report) => {
            if report[0] == 0 {
                return Ok(DeviceInput::NoData);
            }
            let state: u8 = if dual {
                report[10]
            } else {
                0x1u8
            };
            process_input(report[9], state)
        },
    }
}

/// The events of a snapshot sample against the stored snapshot.
fn diff_snapshot(dual: bool, encoder: bool, theirs: &Vec<bool>, mine: &Vec<bool>) -> (updates: Vec<
    DeviceStateUpdate,
>)
    ensures
        updates@ == snapshot_updates(dual, encoder, theirs@, mine@),
{
    let n: usize = if theirs.len() <= mine.len() {
        theirs.len()
    } else {
        mine.len()
    };
    let mut updates: Vec<DeviceStateUpdate> = Vec::new();
    let mut index: usize = 0;
    let ghost per_index = |i: int| edge(dual, encoder, i, theirs@[i], mine@[i]);
    assert(Seq::new(0, per_index) =~= Seq::<Seq<DeviceStateUpdate>>::empty());
    while index < n
        invariant
            index <= n,
            n <= theirs@.len(),
            n <= mine@.len(),
            per_index == |i: int| edge(dual, encoder, i, theirs@[i], mine@[i]),
            updates@ == Seq::new(index as nat, per_index).flatten(),
        decreases n - index,
    {
        let their: bool = theirs[index];
        let byte: u8 = (index % 256) as u8;
        let ghost before = updates@;
        if !dual {
            if their {
                if encoder {
                    updates.push(DeviceStateUpdate::EncoderDown(byte));
                    updates.push(DeviceStateUpdate::EncoderUp(byte));
                } else {
                    updates.push(DeviceStateUpdate::ButtonDown(byte));
                    updates.push(DeviceStateUpdate::ButtonUp(byte));
                }
            }
        } else if their != mine[index] {
            if their {
                if encoder {
                    updates.push(DeviceStateUpdate::EncoderDown(byte));
                } else {
                    updates.push(DeviceStateUpdate::ButtonDown(byte));
                }
            } else {
                if encoder {
                    updates.push(DeviceStateUpdate::EncoderUp(byte));
                } else {
                    updates.push(DeviceStateUpdate::ButtonUp(byte));
                }
            }
        }
        proof {
            let done = Seq::new(index as nat, per_index);
            assert(updates@ =~= before + per_index(index as int));
            assert(Seq::new((index + 1) as nat, per_index) =~= done.push(per_index(index as int)));
            done.lemma_flatten_push(per_index(index as int));
        }
        index += 1;
    }
    updates
}

/// The twist events of a sample of deltas.
fn diff_twists(deltas: &Vec<i8>) -> (updates: Vec<DeviceStateUpdate>)
    ensures
        updates@ == twists(deltas@, deltas@.len()),
{
    let mut updates: Vec<DeviceStateUpdate> = Vec::new();
    let mut index: usize = 0;
    let ghost per_index = |i: int| twist(i, deltas@[i]);
    assert(Seq::new(0, per_index) =~= Seq::<Seq<DeviceStateUpdate>>::empty());
    while index < deltas.len()
        invariant
            index <= deltas@.len(),
            per_index == |i: int| twist(i, deltas@[i]),
            updates@ == Seq::new(index as nat, per_index).flatten(),
        decreases deltas@.len() - index,
    {
        let change: i8 = deltas[index];
        let ghost before = updates@;
        if change != 0 {
            updates.push(DeviceStateUpdate::EncoderTwist((index % 256) as u8, change));
        }
        proof {
            let done = Seq::new(index as nat, per_index);
            assert(updates@ =~= before + per_index(index as int));
            assert(Seq::new((index + 1) as nat, per_index) =~= done.push(per_index(index as int)));
            done.lemma_flatten_push(per_index(index as int));
        }
        index += 1;
    }
    updates
}

/// The events of one more position come after those of the positions before
/// it.
pub proof fn lemma_edges_step(dual: bool, encoder: bool, theirs: Seq<bool>, mine: Seq<bool>, n: nat)
    ensures
        edges(dual, encoder, theirs, mine, n + 1) == edges(dual, encoder, theirs, mine, n) + edge(
            dual,
            encoder,
            n as int,
            theirs[n as int],
            mine[n as int],
        ),
{
    let per_index = |i: int| edge(dual, encoder, i, theirs[i], mine[i]);
    let done = Seq::new(n, per_index);
    assert(Seq::new(n + 1, per_index) =~= done.push(per_index(n as int)));
    done.lemma_flatten_push(per_index(n as int));
}

/// On a device that reports only a pulse the stored snapshot has no say: a
/// sample gives the same events against any two stored snapshots.
pub proof fn law_pulse_ignores_stored(
    encoder: bool,
    theirs: Seq<bool>,
    mine: Seq<bool>,
    other: Seq<bool>,
    n: nat,
)
    ensures
        edges(false, encoder, theirs, mine, n) == edges(false, encoder, theirs, other, n),
        mine.len() == other.len() ==> snapshot_updates(false, encoder, theirs, mine) == snapshot_updates(
            false,
            encoder,
            theirs,
            other,
        ),
{
    let with_mine = |i: int| edge(false, encoder, i, theirs[i], mine[i]);
    let with_other = |i: int| edge(false, encoder, i, theirs[i], other[i]);
    assert forall|m: nat| Seq::new(m, with_mine) == Seq::new(m, with_other) by {
        assert(Seq::new(m, with_mine) =~= Seq::new(m, with_other));
    }
}

/// On a device that reports only a pulse, the events of the first `n`
/// positions of a sample that is `true` at position `i` and nowhere else are
/// the press and the release of `i`, in this order, once `n` reaches past
/// `i`, and none before.
proof fn lemma_single_pulse(encoder: bool, theirs: Seq<bool>, mine: Seq<bool>, i: int, n: nat)
    requires
        0 <= i < theirs.len(),
        n <= theirs.len(),
        forall|j: int| 0 <= j < theirs.len() ==> theirs[j] == (j == i),
    ensures
        edges(false, encoder, theirs, mine, n) == if n <= i {
            Seq::<DeviceStateUpdate>::empty()
        } else {
            seq![down(encoder, i), up(encoder, i)]
        },
    decreases n,
{
    if n == 0 {
        let per_index = |j: int| edge(false, encoder, j, theirs[j], mine[j]);
        assert(Seq::new(0, per_index) =~= Seq::<Seq<DeviceStateUpdate>>::empty());
    } else {
        let m = (n - 1) as nat;
        lemma_single_pulse(encoder, theirs, mine, i, m);
        lemma_edges_step(false, encoder, theirs, mine, m);
        assert(edges(false, encoder, theirs, mine, n) =~= if n <= i {
            Seq::<DeviceStateUpdate>::empty()
        } else {
            seq![down(encoder, i), up(encoder, i)]
        });
    }
}

/// A pulse is a click. On a device that reports only a pulse, a sample that
/// is `true` at position `i` and nowhere else gives exactly the press of `i`
/// followed by the release of `i`, whatever the stored snapshot holds.
pub proof fn law_pulse_is_click(encoder: bool, theirs: Seq<bool>, mine: Seq<bool>, i: int)
    requires
        0 <= i < theirs.len() <= mine.len(),
        forall|j: int| 0 <= j < theirs.len() ==> theirs[j] == (j == i),
    ensures
        snapshot_updates(false, encoder, theirs, mine) == seq![down(encoder, i), up(encoder, i)],
{
    lemma_single_pulse(encoder, theirs, mine, i, theirs.len());
}

/// Every pulse is a click. On a device that reports only a pulse, each
/// position `i` at which the sample is `true` gives the press of `i`
/// directly followed by the release of `i` among the events, whatever the
/// stored snapshot holds.
pub proof fn law_pulse_gives_click(encoder: bool, theirs: Seq<bool>, mine: Seq<bool>, i: int)
    requires
        0 <= i < theirs.len() <= mine.len(),
        theirs[i],
    ensures
        exists|at: int|
            0 <= at && at + 1 < snapshot_updates(false, encoder, theirs, mine).len() && #[trigger] snapshot_updates(
                false,
                encoder,
                theirs,
                mine,
            )[at] == down(encoder, i) && snapshot_updates(false, encoder, theirs, mine)[at + 1] == up(
                encoder,
                i,
            ),
{
    let all = snapshot_updates(false, encoder, theirs, mine);
    let at = edges(false, encoder, theirs, mine, i as nat).len() as int;
    let upto = edges(false, encoder, theirs, mine, (i + 1) as nat);
    lemma_edges_step(false, encoder, theirs, mine, i as nat);
    lemma_edges_prefix(false, encoder, theirs, mine, (i + 1) as nat, theirs.len());
    assert(upto.len() == at + 2);
    assert(all.take(upto.len() as int)[at] == down(encoder, i));
    assert(all.take(upto.len() as int)[at + 1] == up(encoder, i));
    assert(all[at] == down(encoder, i));
    assert(all[at + 1] == up(encoder, i));
}

/// The events of the first `n` positions stand at the front of the events of
/// the first `m`, for `n <= m`.
proof fn lemma_edges_prefix(dual: bool, encoder: bool, theirs: Seq<bool>, mine: Seq<bool>, n: nat, m: nat)
    requires
        n <= m,
    ensures
        edges(dual, encoder, theirs, mine, n).len() <= edges(dual, encoder, theirs, mine, m).len(),
        edges(dual, encoder, theirs, mine, m).take(edges(dual, encoder, theirs, mine, n).len() as int) == edges(
            dual,
            encoder,
            theirs,
            mine,
            n,
        ),
    decreases m - n,
{
    let short = edges(dual, encoder, theirs, mine, n);
    if n == m {
        assert(short.take(short.len() as int) =~= short);
    } else {
        let k = (m - 1) as nat;
        lemma_edges_prefix(dual, encoder, theirs, mine, n, k);
        lemma_edges_step(dual, encoder, theirs, mine, k);
        let mid = edges(dual, encoder, theirs, mine, k);
        let long = edges(dual, encoder, theirs, mine, m);
        assert(long.take(short.len() as int) =~= mid.take(short.len() as int));
    }
}

/// Every event names a sampled position: each event of the first `n`
/// positions is the press or the release of a position below `n`, and the
/// index that it carries is that position itself wherever the position fits
/// a byte.
pub proof fn law_events_name_positions(
    dual: bool,
    encoder: bool,
    theirs: Seq<bool>,
    mine: Seq<bool>,
    n: nat,
    at: int,
)
    requires
        0 <= at < edges(dual, encoder, theirs, mine, n).len(),
    ensures
        exists|i: int|
            0 <= i < n && (edges(dual, encoder, theirs, mine, n)[at] == #[trigger] down(encoder, i) || edges(
                dual,
                encoder,
                theirs,
                mine,
                n,
            )[at] == up(encoder, i)),
        forall|i: int| 0 <= i < 256 ==> #[trigger] index_byte(i) == i,
    decreases n,
{
    if n == 0 {
        let per_index = |i: int| edge(dual, encoder, i, theirs[i], mine[i]);
        assert(Seq::new(0, per_index) =~= Seq::<Seq<DeviceStateUpdate>>::empty());
    } else {
        let m = (n - 1) as nat;
        let before = edges(dual, encoder, theirs, mine, m);
        let all = edges(dual, encoder, theirs, mine, n);
        lemma_edges_step(dual, encoder, theirs, mine, m);
        if at < before.len() {
            law_events_name_positions(dual, encoder, theirs, mine, m, at);
            let i = choose|i: int|
                0 <= i < m && (before[at] == #[trigger] down(encoder, i) || before[at] == up(encoder, i));
            assert(all[at] == down(encoder, i) || all[at] == up(encoder, i));
        } else {
            let last = edge(dual, encoder, m as int, theirs[m as int], mine[m as int]);
            assert(all[at] == last[at - before.len()]);
            assert(all[at] == down(encoder, m as int) || all[at] == up(encoder, m as int));
        }
    }
}

/// A snapshot keeps its length: a sample as long as the stored snapshot of
/// its namespace leaves the stored lengths as they were, and the other
/// namespace untouched.
pub proof fn law_snapshot_length_kept(state: DeviceStateView, input: DeviceInput)
    ensures
        input matches DeviceInput::ButtonStateChange(buttons) ==> state_after(state, input).buttons
            == buttons@ && state_after(state, input).encoders == state.encoders,
        input matches DeviceInput::EncoderStateChange(encoders) ==> state_after(state, input).encoders
            == encoders@ && state_after(state, input).buttons == state.buttons,
        input matches DeviceInput::ButtonStateChange(buttons) && buttons@.len() == state.buttons.len()
            ==> state_after(state, input).buttons.len() == state.buttons.len(),
        input matches DeviceInput::EncoderStateChange(encoders) && encoders@.len()
            == state.encoders.len() ==> state_after(state, input).encoders.len() == state.encoders.len(),
{
}

/// A device that reports both states tells changes only: a position whose
/// sampled state equals the stored one gives no event, a change to pressed
/// gives the press, a change to released gives the release.
pub proof fn law_dual_state_edges(encoder: bool, i: int, their: bool, mine: bool)
    ensures
        their == mine ==> edge(true, encoder, i, their, mine) == Seq::<DeviceStateUpdate>::empty(),
        their && !mine ==> edge(true, encoder, i, their, mine) == seq![down(encoder, i)],
        !their && mine ==> edge(true, encoder, i, their, mine) == seq![up(encoder, i)],
{
}

/// Where no report came before the timer, nothing is asked of the
/// classifier, the input is empty, no event is given and the stored state
/// stays as it was.
pub proof fn law_timeout_is_no_data(dual: bool, state: DeviceStateView)
    ensures
        report_request(dual, None) is None,
        updates_of(dual, state, DeviceInput::NoData) == Seq::<DeviceStateUpdate>::empty(),
        state_after(state, DeviceInput::NoData) == state,
{
}

/// A report whose first byte is zero is a heartbeat: nothing is asked of the
/// classifier, whatever else the report holds.
pub proof fn law_heartbeat_is_no_data(dual: bool, report: Seq<u8>)
    requires
        report.len() > 0,
        report[0] == 0,
    ensures
        report_request(dual, Some(report)) is None,
{
}

/// Twists never touch the stored state, and only positions with a delta
/// other than zero give an event.
pub proof fn law_twist_keeps_state(state: DeviceStateView, deltas: Vec<i8>, i: int)
    ensures
        state_after(state, DeviceInput::EncoderTwist(deltas)) == state,
        0 <= i < deltas@.len() && deltas@[i] == 0 ==> twist(i, deltas@[i]) == Seq::<DeviceStateUpdate>::empty(),
        0 <= i < deltas@.len() && deltas@[i] != 0 ==> twist(i, deltas@[i]) == seq![
            DeviceStateUpdate::EncoderTwist(index_byte(i), deltas@[i]),
        ],
{
}

/// Button reader that keeps state of the device and returns events instead of full states
pub struct DeviceStateReader<F> {
    /// Whether the device reports press and release, or only a pulse
    pub supports_both_states: bool,
    pub states: DeviceState,
    pub process_input: F,
}

impl<F: Fn(u8, u8) -> Result<DeviceInput, MirajazzError>> DeviceStateReader<F> {
    /// A reader for a device with `key_count` buttons and `encoder_count`
    /// encoders, all of them released.
    pub fn new(supports_both_states: bool, key_count: usize, encoder_count: usize, process_input: F) -> (reader:
        Self)
        ensures
            reader.supports_both_states == supports_both_states,
            reader.process_input == process_input,
            reader.states@.buttons == Seq::new(key_count as nat, |i: int| false),
            reader.states@.encoders == Seq::new(encoder_count as nat, |i: int| false),
    {
        let buttons = released(key_count);
        let encoders = released(encoder_count);
        DeviceStateReader { supports_both_states, states: DeviceState { buttons, encoders }, process_input }
    }

    /// Turns one report that was read, or the lack of one, into updates.
    ///
    /// The report is classified as [`classify_report`] says. Where the
    /// classifier fails, its error is the result and the stored state stays;
    /// else the result and the new state are those of
    /// [`DeviceStateReader::input_to_updates`] on the classified input.
    pub fn read(&mut self, data: Option<Vec<u8>>) -> (updates: Result<
        Vec<DeviceStateUpdate>,
        MirajazzError,
    >)
        requires
            data matches Some(report) ==> report@.len() >= 11,
            forall|index: u8, state: u8| call_requires(old(self).process_input, (index, state)),
        ensures
            final(self).supports_both_states == old(self).supports_both_states,
            final(self).process_input == old(self).process_input,
            match report_request(old(self).supports_both_states, report_bytes(data)) {
                None => updates matches Ok(list) && list@ == Seq::<DeviceStateUpdate>::empty()
                    && final(self).states@ == old(self).states@,
                Some(request) => exists|input: Result<DeviceInput, MirajazzError>|
                    {
                        &&& call_ensures(old(self).process_input, request, input)
                        &&& read_outcome(
                            old(self).supports_both_states,
                            old(self).states@,
                            input,
                            final(self).states@,
                            updates,
                        )
                    },
            },
    {
        let ghost before = self.states@;
        let classified = classify_report(self.supports_both_states, data, &self.process_input);
        let ghost outcome = classified;
        let updates = match classified {
            Ok(input) => Ok(self.input_to_updates(input)),
            Err(e) => Err(e),
        };
        assert(read_outcome(self.supports_both_states, before, outcome, self.states@, updates));
        updates
    }

    /// Compares a classified input with the stored state, gives the events
    /// of the difference and stores what the input says of the state.
    pub fn input_to_updates(&mut self, input: DeviceInput) -> (updates: Vec<DeviceStateUpdate>)
        ensures
            updates@ == updates_of(old(self).supports_both_states, old(self).states@, input),
            final(self).states@ == state_after(old(self).states@, input),
            final(self).supports_both_states == old(self).supports_both_states,
            final(self).process_input == old(self).process_input,
    {
        match input {
            DeviceInput::ButtonStateChange(buttons) => {
                let updates = diff_snapshot(
                    self.supports_both_states,
                    false,
                    &buttons,
                    &self.states.buttons,
                );
                self.states.buttons = buttons;
                updates
            },
            DeviceInput::EncoderStateChange(encoders) => {
                let updates = diff_snapshot(
                    self.supports_both_states,
                    true,
                    &encoders,
                    &self.states.encoders,
                );
                self.states.encoders = encoders;
                updates
            },
            DeviceInput::EncoderTwist(deltas) => diff_twists(&deltas),
            DeviceInput::NoData => Vec::new(),
        }
    }
}

/// What a read gives for each outcome of the classifier: its error, with the
/// state untouched, or the events and the new state of its input.
pub open spec fn read_outcome(
    dual: bool,
    before: DeviceStateView,
    input: Result<DeviceInput, MirajazzError>,
    after: DeviceStateView,
    updates: Result<Vec<DeviceStateUpdate>, MirajazzError>,
) -> bool {
    match input {
        Ok(classified) => {
            &&& updates matches Ok(list)
            &&& list@ == updates_of(dual, before, classified)
            &&& after == state_after(before, classified)
        },
        Err(e) => updates == Err::<Vec<DeviceStateUpdate>, MirajazzError>(e) && after == before,
    }
}

/// A snapshot of `count` released buttons.
fn released(count: usize) -> (snapshot: Vec<bool>)
    ensures
        snapshot@ == Seq::new(count as nat, |i: int| false),
{
    let mut snapshot: Vec<bool> = Vec::new();
    while snapshot.len() < count
        invariant
            snapshot@.len() <= count,
            snapshot@ == Seq::new(snapshot@.len(), |i: int| false),
        decreases count - snapshot@.len(),
    {
        snapshot.push(false);
        assert(snapshot@ =~= Seq::new(snapshot@.len(), |i: int| false));
    }
    snapshot
}

} // verus!
