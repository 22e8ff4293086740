use vstd::prelude::*;
use crate::color::Color;
use crate::util::label_wf;

verus! {

// ---------------------------------------------------------------------------
// Byte vector helpers
// ---------------------------------------------------------------------------

/// Copies a byte vector. The copy holds exactly the same bytes.
pub fn clone_bytes(v: &Vec<u8>) -> (r: Vec<u8>)
    ensures
        r@ == v@,
{
    let mut r: Vec<u8> = Vec::new();
    let n = v.len();
    let mut i: usize = 0;
    while i < n
        invariant
            0 <= i <= n,
            n == v@.len(),
            r@ == v@.subrange(0, i as int),
        decreases n - i,
    {
        r.push(v[i]);
        i = i + 1;
        proof {
            assert(r@ =~= v@.subrange(0, i as int));
        }
    }
    proof {
        assert(r@ =~= v@);
    }
    r
}

// ---------------------------------------------------------------------------
// Cue points
// ---------------------------------------------------------------------------

/// A cue point saved on the track.
///
/// `label` holds the UTF-8 bytes of the cue's name, without the `0x00`
/// terminator of the byte form.
#[derive(Debug)]
pub struct Cue {
    pub index: u8,
    pub position_millis: u32,
    pub color: Color,
    pub label: Vec<u8>,
}

/// The mathematical value of a [`Cue`].
#[verifier::ext_equal]
pub struct CueView {
    pub index: u8,
    pub position_millis: u32,
    pub color: Color,
    pub label: Seq<u8>,
}

impl DeepView for Cue {
    type V = CueView;

    open spec fn deep_view(&self) -> CueView {
        CueView {
            index: self.index,
            position_millis: self.position_millis,
            color: self.color,
            label: self.label.deep_view(),
        }
    }
}

impl Clone for Cue {
    /// The copy holds the same value.
    fn clone(&self) -> (r: Self)
        ensures
            r.deep_view() == self.deep_view(),
    {
        let r = Cue {
            index: self.index,
            position_millis: self.position_millis,
            color: self.color,
            label: clone_bytes(&self.label),
        };
        proof {
            assert(r.deep_view() =~= self.deep_view());
        }
        r
    }
}

/// The size that a cue's marker header declares: thirteen fixed bytes
/// plus the label.
pub open spec fn cue_body_len(c: CueView) -> int {
    13 + c.label.len() as int
}

/// True when the declared size of a cue fits the `u32` length field.
pub open spec fn cue_size_ok(c: CueView) -> bool {
    cue_body_len(c) <= u32::MAX
}

/// True of a cue that serialising and parsing both accept.
pub open spec fn cue_wf(c: CueView) -> bool {
    cue_size_ok(c) && label_wf(c.label)
}

// ---------------------------------------------------------------------------
// Saved loops
// ---------------------------------------------------------------------------

/// A saved loop: a labelled playback range.
#[derive(Debug)]
pub struct Loop {
    pub index: u8,
    pub start_position_millis: u32,
    pub end_position_millis: u32,
    pub color: Color,
    pub is_locked: bool,
    pub label: Vec<u8>,
}

/// The mathematical value of a [`Loop`].
#[verifier::ext_equal]
pub struct LoopView {
    pub index: u8,
    pub start_position_millis: u32,
    pub end_position_millis: u32,
    pub color: Color,
    pub is_locked: bool,
    pub label: Seq<u8>,
}

impl DeepView for Loop {
    type V = LoopView;

    open spec fn deep_view(&self) -> LoopView {
        LoopView {
            index: self.index,
            start_position_millis: self.start_position_millis,
            end_position_millis: self.end_position_millis,
            color: self.color,
            is_locked: self.is_locked,
            label: self.label.deep_view(),
        }
    }
}

impl Clone for Loop {
    /// The copy holds the same value.
    fn clone(&self) -> (r: Self)
        ensures
            r.deep_view() == self.deep_view(),
    {
        let r = Loop {
            index: self.index,
            start_position_millis: self.start_position_millis,
            end_position_millis: self.end_position_millis,
            color: self.color,
            is_locked: self.is_locked,
            label: clone_bytes(&self.label),
        };
        proof {
            assert(r.deep_view() =~= self.deep_view());
        }
        r
    }
}

/// The size that a loop's marker header declares: twenty-one fixed
/// bytes plus the label.
pub open spec fn loop_body_len(l: LoopView) -> int {
    21 + l.label.len() as int
}

/// True when the declared size of a loop fits the `u32` length field.
pub open spec fn loop_size_ok(l: LoopView) -> bool {
    loop_body_len(l) <= u32::MAX
}

/// True of a loop that serialising and parsing both accept.
pub open spec fn loop_wf(l: LoopView) -> bool {
    loop_size_ok(l) && label_wf(l.label)
}

// ---------------------------------------------------------------------------
// Flip actions
// ---------------------------------------------------------------------------

/// A jump action of a Flip edit: play from `source` then continue at
/// `target`. The two positions are the raw big-endian IEEE-754 bits of
/// the position in seconds; the codec preserves them verbatim.
#[derive(Clone, Copy, Debug, PartialEq, Eq, Structural)]
pub struct JumpFlipAction {
    pub source_position_bits: u64,
    pub target_position_bits: u64,
}

/// A censor action of a Flip edit: between the two positions, play at
/// the given speed factor. All three fields are the raw big-endian
/// IEEE-754 bits of the stored float64 values.
#[derive(Clone, Copy, Debug, PartialEq, Eq, Structural)]
pub struct CensorFlipAction {
    pub start_position_bits: u64,
    pub end_position_bits: u64,
    pub speed_factor_bits: u64,
}

/// A flip action this codec has no parser for, preserved verbatim.
#[derive(Debug)]
pub struct UnknownFlipAction {
    pub id: u8,
    pub data: Vec<u8>,
}

/// An entry of a Flip edit sequence.
#[derive(Debug)]
pub enum FlipAction {
    Jump(JumpFlipAction),
    Censor(CensorFlipAction),
    Unknown(UnknownFlipAction),
}

/// The mathematical value of a [`FlipAction`].
#[verifier::ext_equal]
pub enum FlipActionView {
    Jump(JumpFlipAction),
    Censor(CensorFlipAction),
    Unknown { id: u8, data: Seq<u8> },
}

impl DeepView for FlipAction {
    type V = FlipActionView;

    open spec fn deep_view(&self) -> FlipActionView {
        match self {
            FlipAction::Jump(a) => FlipActionView::Jump(*a),
            FlipAction::Censor(a) => FlipActionView::Censor(*a),
            FlipAction::Unknown(a) => FlipActionView::Unknown { id: a.id, data: a.data.deep_view() },
        }
    }
}

impl Clone for FlipAction {
    /// The copy holds the same value.
    fn clone(&self) -> (r: Self)
        ensures
            r.deep_view() == self.deep_view(),
    {
        match self {
            FlipAction::Jump(a) => FlipAction::Jump(*a),
            FlipAction::Censor(a) => FlipAction::Censor(*a),
            FlipAction::Unknown(a) => {
                let r = FlipAction::Unknown(
                    UnknownFlipAction { id: a.id, data: clone_bytes(&a.data) },
                );
                proof {
                    assert(r.deep_view() =~= self.deep_view());
                }
                r
            },
        }
    }
}

/// The byte count that a Flip marker's declared size charges for one
/// action: twenty-one for a jump, twenty-nine for a censor, and the
/// data length plus one for an unknown action.
pub open spec fn action_size(a: FlipActionView) -> int {
    match a {
        FlipActionView::Jump(_) => 21,
        FlipActionView::Censor(_) => 29,
        FlipActionView::Unknown { id, data } => data.len() as int + 1,
    }
}

/// The summed declared sizes of the actions from `i` on.
pub open spec fn actions_size(s: Seq<FlipActionView>, i: int) -> int
    decreases s.len() - i,
{
    if i < 0 || i >= s.len() {
        0
    } else {
        action_size(s[i]) + actions_size(s, i + 1)
    }
}

/// True when an action's own length field fits `u32`.
pub open spec fn action_size_ok(a: FlipActionView) -> bool {
    match a {
        FlipActionView::Unknown { id, data } => data.len() <= u32::MAX,
        _ => true,
    }
}

// ---------------------------------------------------------------------------
// Flips
// ---------------------------------------------------------------------------

/// A Flip edit sequence saved on the track.
///
/// `label` holds the UTF-8 bytes of the flip's name, without the `0x00`
/// terminator of the byte form.
#[derive(Debug)]
pub struct Flip {
    pub index: u8,
    pub is_enabled: bool,
    pub label: Vec<u8>,
    pub is_loop: bool,
    pub actions: Vec<FlipAction>,
}

/// The mathematical value of a [`Flip`].
#[verifier::ext_equal]
pub struct FlipView {
    pub index: u8,
    pub is_enabled: bool,
    pub label: Seq<u8>,
    pub is_loop: bool,
    pub actions: Seq<FlipActionView>,
}

impl DeepView for Flip {
    type V = FlipView;

    open spec fn deep_view(&self) -> FlipView {
        FlipView {
            index: self.index,
            is_enabled: self.is_enabled,
            label: self.label.deep_view(),
            is_loop: self.is_loop,
            actions: self.actions.deep_view(),
        }
    }
}

/// Copies a vector of flip actions. The copy holds the same values.
pub fn clone_actions(v: &Vec<FlipAction>) -> (r: Vec<FlipAction>)
    ensures
        r.deep_view() == v.deep_view(),
{
    let mut r: Vec<FlipAction> = Vec::new();
    let n = v.len();
    let mut i: usize = 0;
    while i < n
        invariant
            0 <= i <= n,
            n == v@.len(),
            r@.len() == i,
            forall|k: int| 0 <= k < i ==> #[trigger] r@[k].deep_view() == v@[k].deep_view(),
        decreases n - i,
    {
        let a = v[i].clone();
        r.push(a);
        i = i + 1;
    }
    proof {
        assert forall|k: int| 0 <= k < n implies r.deep_view()[k] == v.deep_view()[k] by {
            assert(r@[k].deep_view() == v@[k].deep_view());
        }
        assert(r.deep_view() =~= v.deep_view());
    }
    r
}

impl Clone for Flip {
    /// The copy holds the same value.
    fn clone(&self) -> (r: Self)
        ensures
            r.deep_view() == self.deep_view(),
    {
        let r = Flip {
            index: self.index,
            is_enabled: self.is_enabled,
            label: clone_bytes(&self.label),
            is_loop: self.is_loop,
            actions: clone_actions(&self.actions),
        };
        proof {
            assert(r.deep_view() =~= self.deep_view());
        }
        r
    }
}

/// The size that a flip's marker header declares: nine fixed bytes,
/// the label, and the declared sizes of the actions.
pub open spec fn flip_declared_len(f: FlipView) -> int {
    9 + f.label.len() as int + actions_size(f.actions, 0)
}

/// True when the declared size and action count of a flip fit their
/// `u32` fields.
pub open spec fn flip_size_ok(f: FlipView) -> bool {
    &&& flip_declared_len(f) <= u32::MAX
    &&& f.actions.len() <= u32::MAX
    &&& forall|k: int| 0 <= k < f.actions.len() ==> action_size_ok(#[trigger] f.actions[k])
}

/// True of a flip that serialising accepts.
pub open spec fn flip_wf(f: FlipView) -> bool {
    flip_size_ok(f) && label_wf(f.label)
}

} // verus!
