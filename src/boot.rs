use vstd::prelude::*;
use crate::cell::{ATTRIBUTE, cell_of, make_cell};
use crate::framebuffer::{CELL_COUNT, Framebuffer, logged};

verus! {

/// Where the boot sequence stands.
#[derive(Clone, Copy, PartialEq, Eq, Debug, Structural)]
pub enum Stage {
    /// Writing the message; `next` is the index of the next byte to write.
    Running { next: usize },
    /// The message is written; nothing more happens.
    Halted,
    /// A fault was signalled; nothing more happens.
    Panicked,
}

/// One write of a 16-bit value into the cell at `index`.
#[derive(Clone, Copy, PartialEq, Eq, Debug, Structural)]
pub struct CellWrite {
    pub index: usize,
    pub value: u16,
}

/// What a step of the boot sequence asks of the hardware.
#[derive(Clone, Copy, PartialEq, Eq, Debug, Structural)]
pub enum Action {
    Write(CellWrite),
    Idle,
}

/// The message written at boot: "Hello World baremetal".
pub open spec fn boot_message_spec() -> Seq<u8> {
    seq![
        72u8, 101u8, 108u8, 108u8, 111u8, 32u8, 87u8, 111u8, 114u8, 108u8, 100u8, 32u8,
        98u8, 97u8, 114u8, 101u8, 109u8, 101u8, 116u8, 97u8, 108u8,
    ]
}

/// The message written at boot, as bytes.
pub fn boot_message() -> (r: Vec<u8>)
    ensures
        r@ == boot_message_spec(),
{
    let r: Vec<u8> = vec![
        72u8, 101u8, 108u8, 108u8, 111u8, 32u8, 87u8, 111u8, 114u8, 108u8, 100u8, 32u8,
        98u8, 97u8, 114u8, 101u8, 109u8, 101u8, 116u8, 97u8, 108u8,
    ];
    assert(r@ =~= boot_message_spec());
    r
}

/// The stage at which the entry point begins.
pub fn start() -> (r: Stage)
    ensures
        r == (Stage::Running { next: 0 }),
{
    Stage::Running { next: 0 }
}

/// A fault from any stage ends in the panicked stage.
pub fn enter_panic(stage: Stage) -> (r: Stage)
    ensures
        r == Stage::Panicked,
{
    Stage::Panicked
}

/// One step from `stage` on `msg`: while bytes remain, write the next one
/// with the fixed attribute into its cell and move on; once they are all
/// written, halt. The halted and panicked stages stay as they are and ask
/// for nothing.
pub open spec fn step_spec(stage: Stage, msg: Seq<u8>) -> (Stage, Action) {
    match stage {
        Stage::Running { next } => if next < msg.len() {
            (
                Stage::Running { next: (next + 1) as usize },
                Action::Write(CellWrite { index: next, value: cell_of(msg[next as int], ATTRIBUTE) }),
            )
        } else {
            (Stage::Halted, Action::Idle)
        },
        Stage::Halted => (Stage::Halted, Action::Idle),
        Stage::Panicked => (Stage::Panicked, Action::Idle),
    }
}

/// One step of the boot sequence.
pub fn step(stage: Stage, msg: &[u8]) -> (r: (Stage, Action))
    ensures
        r == step_spec(stage, msg@),
{
    match stage {
        Stage::Running { next } => {
            if next < msg.len() {
                let value = make_cell(msg[next], ATTRIBUTE);
                (Stage::Running { next: next + 1 }, Action::Write(CellWrite { index: next, value }))
            } else {
                (Stage::Halted, Action::Idle)
            }
        },
        Stage::Halted => (Stage::Halted, Action::Idle),
        Stage::Panicked => (Stage::Panicked, Action::Idle),
    }
}

/// The writes that an action asks for.
pub open spec fn writes_of(action: Action) -> Seq<CellWrite> {
    match action {
        Action::Write(w) => seq![w],
        Action::Idle => Seq::empty(),
    }
}

/// The stage reached after `steps` steps from `stage`, and the writes made
/// on the way, in order.
pub open spec fn run_spec(stage: Stage, msg: Seq<u8>, steps: nat) -> (Stage, Seq<CellWrite>)
    decreases steps,
{
    if steps == 0 {
        (stage, Seq::empty())
    } else {
        let (s, trace) = run_spec(stage, msg, (steps - 1) as nat);
        let (t, a) = step_spec(s, msg);
        (t, trace + writes_of(a))
    }
}

/// Runs `steps` steps from `stage` and returns the stage reached and the
/// writes made on the way, in order.
pub fn run(stage: Stage, msg: &[u8], steps: usize) -> (r: (Stage, Vec<CellWrite>))
    ensures
        r.0 == run_spec(stage, msg@, steps as nat).0,
        r.1@ == run_spec(stage, msg@, steps as nat).1,
{
    let mut s = stage;
    let mut trace: Vec<CellWrite> = Vec::new();
    let mut k: usize = 0;
    while k < steps
        invariant
            k <= steps,
            s == run_spec(stage, msg@, k as nat).0,
            trace@ == run_spec(stage, msg@, k as nat).1,
        decreases steps - k,
    {
        let (t, a) = step(s, msg);
        match a {
            Action::Write(w) => trace.push(w),
            Action::Idle => {},
        }
        s = t;
        k = k + 1;
        assert(trace@ =~= run_spec(stage, msg@, k as nat).1);
    }
    (s, trace)
}

/// Carries out an action on the framebuffer; returns `false` where a write
/// falls past the end, which then writes nothing.
pub fn perform(fb: &mut Framebuffer, action: Action) -> (r: bool)
    ensures
        match action {
            Action::Write(w) => {
                &&& r == (w.index < old(fb)@.len())
                &&& r ==> final(fb)@ == old(fb)@.update(w.index as int, w.value)
                &&& !r ==> final(fb)@ == old(fb)@
            },
            Action::Idle => r && final(fb)@ == old(fb)@,
        },
{
    match action {
        Action::Write(w) => fb.store(w.index, w.value),
        Action::Idle => true,
    }
}

/// The halted stage is terminal: however many steps follow, it stays halted
/// and asks for no write.
pub proof fn lemma_halted_is_silent(msg: Seq<u8>, steps: nat)
    ensures
        run_spec(Stage::Halted, msg, steps) == (Stage::Halted, Seq::<CellWrite>::empty()),
    decreases steps,
{
    if steps > 0 {
        lemma_halted_is_silent(msg, (steps - 1) as nat);
        assert(Seq::<CellWrite>::empty() + Seq::empty() =~= Seq::<CellWrite>::empty());
    }
}

/// The panicked stage is terminal: however many steps follow, it stays
/// panicked and asks for no write.
pub proof fn lemma_panicked_is_silent(msg: Seq<u8>, steps: nat)
    ensures
        run_spec(Stage::Panicked, msg, steps) == (Stage::Panicked, Seq::<CellWrite>::empty()),
    decreases steps,
{
    if steps > 0 {
        lemma_panicked_is_silent(msg, (steps - 1) as nat);
        assert(Seq::<CellWrite>::empty() + Seq::empty() =~= Seq::<CellWrite>::empty());
    }
}

/// The writes of the boot sequence: one per byte of `msg`, in increasing
/// cell order, each the byte with the fixed attribute.
pub open spec fn boot_writes(msg: Seq<u8>) -> Seq<CellWrite> {
    Seq::new(
        msg.len(),
        |i: int| CellWrite { index: i as usize, value: cell_of(msg[i], ATTRIBUTE) },
    )
}

/// From the start, the first `steps` steps write the first `steps` bytes;
/// the step after the last byte halts, with no write.
pub proof fn lemma_boot_trace(msg: Seq<u8>, steps: nat)
    requires
        msg.len() <= usize::MAX,
    ensures
        steps <= msg.len() ==> run_spec(Stage::Running { next: 0 }, msg, steps) == (
        Stage::Running { next: steps as usize }, boot_writes(msg).take(steps as int)),
        steps > msg.len() ==> run_spec(Stage::Running { next: 0 }, msg, steps) == (
        Stage::Halted, boot_writes(msg)),
    decreases steps,
{
    if steps > 0 {
        let k = (steps - 1) as nat;
        lemma_boot_trace(msg, k);
        if steps <= msg.len() {
            assert(boot_writes(msg).take(k as int) + seq![boot_writes(msg)[k as int]]
                =~= boot_writes(msg).take(steps as int));
        } else if k == msg.len() {
            assert(boot_writes(msg).take(k as int) + Seq::empty() =~= boot_writes(msg));
        } else {
            assert(boot_writes(msg) + Seq::empty() =~= boot_writes(msg));
        }
    }
}

/// Once the entry point has reached its terminal loop it issues no other
/// write: every run from the start of at least `msg.len() + 1` steps halts,
/// having made exactly the writes of the message, one per byte, in order.
pub proof fn lemma_boot_halts_and_stays_silent(msg: Seq<u8>, steps: nat, more: nat)
    requires
        msg.len() <= CELL_COUNT,
        steps > msg.len(),
    ensures
        run_spec(Stage::Running { next: 0 }, msg, steps) == (Stage::Halted, boot_writes(msg)),
        run_spec(Stage::Running { next: 0 }, msg, steps + more) == run_spec(
            Stage::Running { next: 0 },
            msg,
            steps,
        ),
        boot_writes(msg).len() == msg.len(),
{
    lemma_boot_trace(msg, steps);
    lemma_boot_trace(msg, steps + more);
}

/// The entry point's work: runs the boot sequence on `msg` against the
/// framebuffer until it halts, and returns the halted stage. The message
/// must fit.
pub fn boot(fb: &mut Framebuffer, msg: &[u8]) -> (r: Stage)
    requires
        msg@.len() <= old(fb)@.len(),
    ensures
        r == Stage::Halted,
        r == run_spec(Stage::Running { next: 0 }, msg@, msg@.len() + 1).0,
        final(fb)@ == logged(old(fb)@, msg@),
{
    let ghost cells = fb@;
    assert(msg@.len() == msg.len());
    let mut s = start();
    let ghost mut k: nat = 0;
    while s != Stage::Halted
        invariant
            msg@.len() <= usize::MAX,
            msg@.len() <= fb@.len(),
            fb@.len() == cells.len(),
            k <= msg@.len() + 1,
            s == run_spec(Stage::Running { next: 0 }, msg@, k).0,
            k <= msg@.len() ==> s == (Stage::Running { next: k as usize }),
            k > msg@.len() ==> s == Stage::Halted,
            k <= msg@.len() ==> fb@ == logged(cells, msg@.take(k as int)),
            k > msg@.len() ==> fb@ == logged(cells, msg@),
        decreases msg@.len() + 1 - k,
    {
        proof {
            lemma_boot_trace(msg@, k);
            lemma_boot_trace(msg@, k + 1);
        }
        let (t, a) = step(s, msg);
        perform(fb, a);
        s = t;
        proof {
            k = k + 1;
            if k <= msg@.len() {
                assert(fb@ =~= logged(cells, msg@.take(k as int)));
            } else {
                assert(msg@.take(msg@.len() as int) =~= msg@);
            }
        }
    }
    proof {
        lemma_boot_trace(msg@, msg@.len() + 1);
    }
    s
}

} // verus!
