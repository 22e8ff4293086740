//! The `Serato Markers2` tag: cue points, saved loops, Flips, the
//! track colour and the BPM-lock state, stored as a version record
//! followed by line-wrapped base64 chunks whose decoded bytes hold a
//! second version record and a sequence of named, length-prefixed
//! markers.

use vstd::prelude::*;
use crate::color::{Color, color_bytes, sp_color_at, take_color, write_color};
use crate::enveloped::{is_b64_byte, b64_of, b64_decode_of, b64_encode, b64_decode};
use crate::error::Error;
use crate::generic::{
    Cue, CueView, Flip, FlipAction, FlipActionView, FlipView, JumpFlipAction, CensorFlipAction,
    Loop, LoopView, UnknownFlipAction, action_size_ok, actions_size, clone_bytes,
    cue_body_len, cue_size_ok, cue_wf, flip_declared_len, flip_size_ok, flip_wf, loop_body_len,
    loop_size_ok, loop_wf,
};
use crate::util::{
    Version, bool_byte, be_u32_bytes, be_u32_of, be_u64_bytes, be_u64_of, first_nul_from,
    is_utf8, label_wf, lemma_be_u32_roundtrip, lemma_be_u64_roundtrip, sp_take_utf8, take_be_u32,
    take_be_u64, take_utf8, version_bytes, write_be_u32, write_be_u64, write_bool, write_version,
};

verus! {

broadcast use crate::util::lemma_bytes_deep_view;

// ---------------------------------------------------------------------------
// Marker values
// ---------------------------------------------------------------------------

/// An unknown marker that this codec has no parser for, preserved
/// verbatim so a round trip does not drop it.
#[derive(Debug)]
pub struct UnknownMarker {
    /// The UTF-8 bytes of the marker's name, without the terminator.
    pub name: Vec<u8>,
    pub data: Vec<u8>,
}

/// A `COLOR` marker: the track's colour in the library list.
#[derive(Clone, Copy, Debug, PartialEq, Eq, Structural)]
pub struct TrackColorMarker {
    pub color: Color,
}

/// A `BPMLOCK` marker: whether the track's beatgrid is locked.
#[derive(Clone, Copy, Debug, PartialEq, Eq, Structural)]
pub struct BPMLockMarker {
    pub is_locked: bool,
}

/// A marker of the `Serato Markers2` tag.
///
/// Each marker is described by a header holding its null-terminated
/// ASCII name and a `u32` length; the payload layout depends on the
/// name. Markers with names this codec does not know keep their bytes
/// in [`UnknownMarker`].
#[derive(Debug)]
pub enum Marker {
    Unknown(UnknownMarker),
    Color(TrackColorMarker),
    BPMLock(BPMLockMarker),
    Cue(Cue),
    Loop(Loop),
    Flip(Flip),
}

/// The mathematical value of an [`UnknownMarker`].
#[verifier::ext_equal]
pub struct UnknownMarkerView {
    pub name: Seq<u8>,
    pub data: Seq<u8>,
}

/// The mathematical value of a [`Marker`].
#[verifier::ext_equal]
pub enum MarkerView {
    Unknown(UnknownMarkerView),
    Color(TrackColorMarker),
    BPMLock(BPMLockMarker),
    Cue(CueView),
    Loop(LoopView),
    Flip(FlipView),
}

impl DeepView for UnknownMarker {
    type V = UnknownMarkerView;

    open spec fn deep_view(&self) -> UnknownMarkerView {
        UnknownMarkerView { name: self.name.deep_view(), data: self.data.deep_view() }
    }
}

impl DeepView for TrackColorMarker {
    type V = TrackColorMarker;

    open spec fn deep_view(&self) -> TrackColorMarker {
        *self
    }
}

impl DeepView for BPMLockMarker {
    type V = BPMLockMarker;

    open spec fn deep_view(&self) -> BPMLockMarker {
        *self
    }
}

impl DeepView for Marker {
    type V = MarkerView;

    open spec fn deep_view(&self) -> MarkerView {
        match self {
            Marker::Unknown(u) => MarkerView::Unknown(u.deep_view()),
            Marker::Color(c) => MarkerView::Color(*c),
            Marker::BPMLock(b) => MarkerView::BPMLock(*b),
            Marker::Cue(c) => MarkerView::Cue(c.deep_view()),
            Marker::Loop(l) => MarkerView::Loop(l.deep_view()),
            Marker::Flip(f) => MarkerView::Flip(f.deep_view()),
        }
    }
}

/// The decoded content of the `Serato Markers2` tag: an inner version
/// record and the sequence of markers.
#[derive(Debug)]
pub struct Markers2Content {
    pub version: Version,
    pub markers: Vec<Marker>,
}

/// The mathematical value of a [`Markers2Content`].
#[verifier::ext_equal]
pub struct Markers2ContentView {
    pub version: Version,
    pub markers: Seq<MarkerView>,
}

impl DeepView for Markers2Content {
    type V = Markers2ContentView;

    open spec fn deep_view(&self) -> Markers2ContentView {
        Markers2ContentView { version: self.version, markers: self.markers.deep_view() }
    }
}

/// Represents the `Serato Markers2` tag.
///
/// `version` is the outer version record, absent in the Ogg envelope.
/// `size` is the byte length of the payload the tag was parsed from;
/// writing pads with trailing `0x00` back to that length.
#[derive(Debug)]
pub struct Markers2 {
    pub version: Option<Version>,
    pub size: usize,
    pub content: Markers2Content,
}

/// The mathematical value of a [`Markers2`].
#[verifier::ext_equal]
pub struct Markers2View {
    pub version: Option<Version>,
    pub size: int,
    pub content: Markers2ContentView,
}

impl DeepView for Markers2 {
    type V = Markers2View;

    open spec fn deep_view(&self) -> Markers2View {
        Markers2View {
            version: self.version,
            size: self.size as int,
            content: self.content.deep_view(),
        }
    }
}

// ---------------------------------------------------------------------------
// Marker names
// ---------------------------------------------------------------------------

/// The ASCII bytes of the name `BPMLOCK`.
pub open spec fn name_bpmlock() -> Seq<u8> {
    seq![66u8, 80u8, 77u8, 76u8, 79u8, 67u8, 75u8]
}

/// The ASCII bytes of the name `COLOR`.
pub open spec fn name_color() -> Seq<u8> {
    seq![67u8, 79u8, 76u8, 79u8, 82u8]
}

/// The ASCII bytes of the name `CUE`.
pub open spec fn name_cue() -> Seq<u8> {
    seq![67u8, 85u8, 69u8]
}

/// The ASCII bytes of the name `LOOP`.
pub open spec fn name_loop() -> Seq<u8> {
    seq![76u8, 79u8, 79u8, 80u8]
}

/// The ASCII bytes of the name `FLIP`.
pub open spec fn name_flip() -> Seq<u8> {
    seq![70u8, 76u8, 73u8, 80u8]
}

/// True of a name that one of the five known marker parsers claims.
pub open spec fn is_known_name(name: Seq<u8>) -> bool {
    ||| name == name_bpmlock()
    ||| name == name_color()
    ||| name == name_cue()
    ||| name == name_loop()
    ||| name == name_flip()
}

// ---------------------------------------------------------------------------
// Serialised form
// ---------------------------------------------------------------------------

/// The bytes of one flip action: id, `u32` length, payload.
pub open spec fn action_bytes(a: FlipActionView) -> Seq<u8> {
    match a {
        FlipActionView::Jump(j) => seq![0u8] + be_u32_bytes(16) + be_u64_bytes(
            j.source_position_bits,
        ) + be_u64_bytes(j.target_position_bits),
        FlipActionView::Censor(c) => seq![1u8] + be_u32_bytes(24) + be_u64_bytes(
            c.start_position_bits,
        ) + be_u64_bytes(c.end_position_bits) + be_u64_bytes(c.speed_factor_bits),
        FlipActionView::Unknown { id, data } => seq![id] + be_u32_bytes(data.len() as u32) + data,
    }
}

/// The concatenated bytes of the actions from `i` on.
pub open spec fn actions_bytes(s: Seq<FlipActionView>, i: int) -> Seq<u8>
    decreases s.len() - i,
{
    if i < 0 || i >= s.len() {
        Seq::empty()
    } else {
        action_bytes(s[i]) + actions_bytes(s, i + 1)
    }
}

/// The body of a `FLIP` marker.
pub open spec fn flip_body_bytes(f: FlipView) -> Seq<u8> {
    seq![0u8, f.index, bool_byte(f.is_enabled)] + f.label + seq![0u8, bool_byte(f.is_loop)]
        + be_u32_bytes(f.actions.len() as u32) + actions_bytes(f.actions, 0)
}

/// The body of a `CUE` marker.
pub open spec fn cue_body_bytes(c: CueView) -> Seq<u8> {
    seq![0u8, c.index] + be_u32_bytes(c.position_millis) + seq![0u8] + color_bytes(c.color) + seq![
        0u8,
        0u8,
    ] + c.label + seq![0u8]
}

/// The body of a `LOOP` marker.
pub open spec fn loop_body_bytes(l: LoopView) -> Seq<u8> {
    seq![0u8, l.index] + be_u32_bytes(l.start_position_millis) + be_u32_bytes(
        l.end_position_millis,
    ) + seq![0xffu8, 0xffu8, 0xffu8, 0xffu8, 0u8] + color_bytes(l.color) + seq![
        0u8,
        bool_byte(l.is_locked),
    ] + l.label + seq![0u8]
}

/// The bytes of one marker: name, terminator, declared `u32` size,
/// body. For a `FLIP` the declared size charges an unknown action only
/// its data length plus one, as Serato's own writer does, so it can
/// fall short of the body's true length.
pub open spec fn marker_bytes(m: MarkerView) -> Seq<u8> {
    match m {
        MarkerView::Unknown(u) => u.name + seq![0u8] + be_u32_bytes(u.data.len() as u32) + u.data,
        MarkerView::BPMLock(b) => name_bpmlock() + seq![0u8] + be_u32_bytes(1) + seq![
            bool_byte(b.is_locked),
        ],
        MarkerView::Color(c) => name_color() + seq![0u8] + be_u32_bytes(4) + seq![0u8]
            + color_bytes(c.color),
        MarkerView::Cue(c) => name_cue() + seq![0u8] + be_u32_bytes(cue_body_len(c) as u32)
            + cue_body_bytes(c),
        MarkerView::Loop(l) => name_loop() + seq![0u8] + be_u32_bytes(loop_body_len(l) as u32)
            + loop_body_bytes(l),
        MarkerView::Flip(f) => name_flip() + seq![0u8] + be_u32_bytes(flip_declared_len(f) as u32)
            + flip_body_bytes(f),
    }
}

/// The concatenated bytes of the markers from `i` on.
pub open spec fn markers_bytes(ms: Seq<MarkerView>, i: int) -> Seq<u8>
    decreases ms.len() - i,
{
    if i < 0 || i >= ms.len() {
        Seq::empty()
    } else {
        marker_bytes(ms[i]) + markers_bytes(ms, i + 1)
    }
}

/// The decoded inner payload: the inner version record followed by
/// every marker.
pub open spec fn content_bytes(c: Markers2ContentView) -> Seq<u8> {
    version_bytes(c.version) + markers_bytes(c.markers, 0)
}

/// True when a marker's length fields fit their `u32` slots, so the
/// writer accepts it.
pub open spec fn marker_writable(m: MarkerView) -> bool {
    match m {
        MarkerView::Unknown(u) => u.data.len() <= u32::MAX,
        MarkerView::BPMLock(_) => true,
        MarkerView::Color(_) => true,
        MarkerView::Cue(c) => cue_size_ok(c),
        MarkerView::Loop(l) => loop_size_ok(l),
        MarkerView::Flip(f) => flip_size_ok(f),
    }
}

/// True when every marker of the content is writable.
pub open spec fn content_writable(c: Markers2ContentView) -> bool {
    forall|k: int| 0 <= k < c.markers.len() ==> marker_writable(#[trigger] c.markers[k])
}

/// True of a marker as parsing produces it: length fields fit, labels
/// and names are terminator-free UTF-8, and an unknown marker's name
/// is non-empty and claims none of the known parsers.
pub open spec fn marker_wf(m: MarkerView) -> bool {
    &&& marker_writable(m)
    &&& match m {
        MarkerView::Unknown(u) => u.name.len() >= 1 && label_wf(u.name) && !is_known_name(u.name),
        MarkerView::BPMLock(_) => true,
        MarkerView::Color(_) => true,
        MarkerView::Cue(c) => label_wf(c.label),
        MarkerView::Loop(l) => label_wf(l.label),
        MarkerView::Flip(f) => label_wf(f.label),
    }
}

/// The summed declared action sizes never go negative.
pub proof fn lemma_actions_size_nonneg(s: Seq<FlipActionView>, i: int)
    ensures
        actions_size(s, i) >= 0,
    decreases s.len() - i,
{
    if 0 <= i && i < s.len() {
        lemma_actions_size_nonneg(s, i + 1);
    }
}

// ---------------------------------------------------------------------------
// Writers
// ---------------------------------------------------------------------------

/// Appends every byte of `v`.
pub fn write_bytes(out: &mut Vec<u8>, v: &Vec<u8>)
    ensures
        final(out)@ == old(out)@ + v@,
{
    let n = v.len();
    let mut i: usize = 0;
    while i < n
        invariant
            0 <= i <= n,
            n == v@.len(),
            out@ == old(out)@ + v@.subrange(0, i as int),
        decreases n - i,
    {
        out.push(v[i]);
        i = i + 1;
        proof {
            assert(out@ =~= old(out)@ + v@.subrange(0, i as int));
        }
    }
    proof {
        assert(out@ =~= old(out)@ + v@);
    }
}

/// Appends the body of a jump action: the two raw float64 positions.
pub fn write_flip_marker_action_jump(out: &mut Vec<u8>, action: &JumpFlipAction)
    ensures
        final(out)@ == old(out)@ + be_u64_bytes(action.source_position_bits) + be_u64_bytes(
            action.target_position_bits,
        ),
{
    write_be_u64(out, action.source_position_bits);
    write_be_u64(out, action.target_position_bits);
}

/// Appends the body of a censor action: the three raw float64 values.
pub fn write_flip_marker_action_censor(out: &mut Vec<u8>, action: &CensorFlipAction)
    ensures
        final(out)@ == old(out)@ + be_u64_bytes(action.start_position_bits) + be_u64_bytes(
            action.end_position_bits,
        ) + be_u64_bytes(action.speed_factor_bits),
{
    write_be_u64(out, action.start_position_bits);
    write_be_u64(out, action.end_position_bits);
    write_be_u64(out, action.speed_factor_bits);
}

/// Appends one flip action: id, length, payload.
pub fn write_flip_marker_action(out: &mut Vec<u8>, action: &FlipAction)
    requires
        action_size_ok(action.deep_view()),
    ensures
        final(out)@ == old(out)@ + action_bytes(action.deep_view()),
{
    match action {
        FlipAction::Jump(act) => {
            out.push(0);
            write_be_u32(out, 16);
            write_flip_marker_action_jump(out, act);
            proof {
                assert(out@ =~= old(out)@ + action_bytes(action.deep_view()));
            }
        },
        FlipAction::Censor(act) => {
            out.push(1);
            write_be_u32(out, 24);
            write_flip_marker_action_censor(out, act);
            proof {
                assert(out@ =~= old(out)@ + action_bytes(action.deep_view()));
            }
        },
        FlipAction::Unknown(act) => {
            out.push(act.id);
            write_be_u32(out, act.data.len() as u32);
            write_bytes(out, &act.data);
            proof {
                assert(out@ =~= old(out)@ + action_bytes(action.deep_view()));
            }
        },
    }
}

/// Appends a `BPMLOCK` marker.
pub fn write_bpmlock_marker(out: &mut Vec<u8>, marker: &BPMLockMarker)
    ensures
        final(out)@ == old(out)@ + marker_bytes(MarkerView::BPMLock(*marker)),
{
    out.push(66);
    out.push(80);
    out.push(77);
    out.push(76);
    out.push(79);
    out.push(67);
    out.push(75);
    out.push(0);
    write_be_u32(out, 1);
    write_bool(out, marker.is_locked);
    proof {
        assert(out@ =~= old(out)@ + marker_bytes(MarkerView::BPMLock(*marker)));
    }
}

/// Appends a `COLOR` marker.
pub fn write_color_marker(out: &mut Vec<u8>, marker: &TrackColorMarker)
    ensures
        final(out)@ == old(out)@ + marker_bytes(MarkerView::Color(*marker)),
{
    out.push(67);
    out.push(79);
    out.push(76);
    out.push(79);
    out.push(82);
    out.push(0);
    write_be_u32(out, 4);
    out.push(0);
    write_color(out, &marker.color);
    proof {
        assert(out@ =~= old(out)@ + marker_bytes(MarkerView::Color(*marker)));
    }
}

/// Appends a `CUE` marker.
pub fn write_cue_marker(out: &mut Vec<u8>, marker: &Cue)
    requires
        cue_size_ok(marker.deep_view()),
    ensures
        final(out)@ == old(out)@ + marker_bytes(MarkerView::Cue(marker.deep_view())),
{
    out.push(67);
    out.push(85);
    out.push(69);
    out.push(0);
    let size: u32 = 13 + marker.label.len() as u32;
    write_be_u32(out, size);
    out.push(0);
    out.push(marker.index);
    write_be_u32(out, marker.position_millis);
    out.push(0);
    write_color(out, &marker.color);
    out.push(0);
    out.push(0);
    write_bytes(out, &marker.label);
    out.push(0);
    proof {
        assert(out@ =~= old(out)@ + marker_bytes(MarkerView::Cue(marker.deep_view())));
    }
}

/// Appends a `LOOP` marker.
pub fn write_loop_marker(out: &mut Vec<u8>, marker: &Loop)
    requires
        loop_size_ok(marker.deep_view()),
    ensures
        final(out)@ == old(out)@ + marker_bytes(MarkerView::Loop(marker.deep_view())),
{
    out.push(76);
    out.push(79);
    out.push(79);
    out.push(80);
    out.push(0);
    let size: u32 = 21 + marker.label.len() as u32;
    write_be_u32(out, size);
    out.push(0);
    out.push(marker.index);
    write_be_u32(out, marker.start_position_millis);
    write_be_u32(out, marker.end_position_millis);
    out.push(0xff);
    out.push(0xff);
    out.push(0xff);
    out.push(0xff);
    out.push(0);
    write_color(out, &marker.color);
    out.push(0);
    write_bool(out, marker.is_locked);
    write_bytes(out, &marker.label);
    out.push(0);
    proof {
        assert(out@ =~= old(out)@ + marker_bytes(MarkerView::Loop(marker.deep_view())));
    }
}

/// Appends a `FLIP` marker. The declared size sums the label and the
/// actions' declared sizes, each action added in turn.
pub fn write_flip_marker(out: &mut Vec<u8>, marker: &Flip)
    requires
        flip_size_ok(marker.deep_view()),
    ensures
        final(out)@ == old(out)@ + marker_bytes(MarkerView::Flip(marker.deep_view())),
{
    let ghost f = marker.deep_view();
    out.push(70);
    out.push(76);
    out.push(73);
    out.push(80);
    out.push(0);
    proof {
        lemma_actions_size_nonneg(f.actions, 0);
    }
    let mut size: u32 = 9 + marker.label.len() as u32;
    let n = marker.actions.len();
    let mut k: usize = 0;
    while k < n
        invariant
            0 <= k <= n,
            n == marker.actions@.len(),
            f == marker.deep_view(),
            flip_size_ok(f),
            size as int + actions_size(f.actions, k as int) == flip_declared_len(f),
        decreases n - k,
    {
        proof {
            lemma_actions_size_nonneg(f.actions, k as int + 1);
            assert(f.actions[k as int] == marker.actions@[k as int].deep_view());
        }
        size = size + (match &marker.actions[k] {
            FlipAction::Jump(_) => 21u32,
            FlipAction::Censor(_) => 29u32,
            FlipAction::Unknown(act) => act.data.len() as u32 + 1,
        });
        k = k + 1;
    }
    write_be_u32(out, size);
    out.push(0);
    out.push(marker.index);
    write_bool(out, marker.is_enabled);
    write_bytes(out, &marker.label);
    out.push(0);
    write_bool(out, marker.is_loop);
    write_be_u32(out, marker.actions.len() as u32);
    let ghost head = out@;
    let mut a: usize = 0;
    while a < n
        invariant
            0 <= a <= n,
            n == marker.actions@.len(),
            f == marker.deep_view(),
            flip_size_ok(f),
            out@ + actions_bytes(f.actions, a as int) == head + actions_bytes(f.actions, 0),
        decreases n - a,
    {
        proof {
            assert(f.actions[a as int] == marker.actions@[a as int].deep_view());
        }
        write_flip_marker_action(out, &marker.actions[a]);
        a = a + 1;
        proof {
            assert(out@ + actions_bytes(f.actions, a as int) =~= head + actions_bytes(
                f.actions,
                0,
            ));
        }
    }
    proof {
        assert(out@ =~= head + actions_bytes(f.actions, 0));
        assert(out@ =~= old(out)@ + marker_bytes(MarkerView::Flip(f)));
    }
}

/// Appends one marker in its serialised form.
pub fn write_marker(out: &mut Vec<u8>, marker: &Marker)
    requires
        marker_writable(marker.deep_view()),
    ensures
        final(out)@ == old(out)@ + marker_bytes(marker.deep_view()),
{
    match marker {
        Marker::Unknown(u) => {
            write_bytes(out, &u.name);
            out.push(0);
            write_be_u32(out, u.data.len() as u32);
            write_bytes(out, &u.data);
            proof {
                assert(out@ =~= old(out)@ + marker_bytes(marker.deep_view()));
            }
        },
        Marker::BPMLock(m) => write_bpmlock_marker(out, m),
        Marker::Color(m) => write_color_marker(out, m),
        Marker::Cue(m) => write_cue_marker(out, m),
        Marker::Loop(m) => write_loop_marker(out, m),
        Marker::Flip(m) => write_flip_marker(out, m),
    }
}

/// Appends the decoded inner payload: the inner version record and
/// every marker.
pub fn write_markers2_content(out: &mut Vec<u8>, content: &Markers2Content)
    requires
        content_writable(content.deep_view()),
    ensures
        final(out)@ == old(out)@ + content_bytes(content.deep_view()),
{
    let ghost c = content.deep_view();
    write_version(out, &content.version);
    let ghost head = out@;
    let n = content.markers.len();
    let mut i: usize = 0;
    while i < n
        invariant
            0 <= i <= n,
            n == content.markers@.len(),
            c == content.deep_view(),
            content_writable(c),
            out@ + markers_bytes(c.markers, i as int) == head + markers_bytes(c.markers, 0),
        decreases n - i,
    {
        proof {
            assert(c.markers[i as int] == content.markers@[i as int].deep_view());
        }
        write_marker(out, &content.markers[i]);
        i = i + 1;
        proof {
            assert(out@ + markers_bytes(c.markers, i as int) =~= head + markers_bytes(
                c.markers,
                0,
            ));
        }
    }
    proof {
        assert(out@ =~= old(out)@ + content_bytes(c));
    }
}


// ---------------------------------------------------------------------------
// Parsed form: flip actions
// ---------------------------------------------------------------------------

/// What one flip action at `i` parses to, and where it ends: an id
/// byte, a `u32` length, and exactly that many payload bytes. Id 0 is
/// a jump (16 bytes), id 1 a censor (24 bytes); any other id is
/// preserved unparsed.
pub open spec fn sp_take_action(s: Seq<u8>, i: int) -> Option<(FlipActionView, int)> {
    if i < 0 || i + 5 > s.len() {
        None
    } else {
        let id = s[i];
        let len = be_u32_of(s[i + 1], s[i + 2], s[i + 3], s[i + 4]) as int;
        if i + 5 + len > s.len() {
            None
        } else {
            let body = s.subrange(i + 5, i + 5 + len);
            let end = i + 5 + len;
            if id == 0 {
                if len == 16 {
                    Some(
                        (
                            FlipActionView::Jump(
                                JumpFlipAction {
                                    source_position_bits: be_u64_of(
                                        body[0],
                                        body[1],
                                        body[2],
                                        body[3],
                                        body[4],
                                        body[5],
                                        body[6],
                                        body[7],
                                    ),
                                    target_position_bits: be_u64_of(
                                        body[8],
                                        body[9],
                                        body[10],
                                        body[11],
                                        body[12],
                                        body[13],
                                        body[14],
                                        body[15],
                                    ),
                                },
                            ),
                            end,
                        ),
                    )
                } else {
                    None
                }
            } else if id == 1 {
                if len == 24 {
                    Some(
                        (
                            FlipActionView::Censor(
                                CensorFlipAction {
                                    start_position_bits: be_u64_of(
                                        body[0],
                                        body[1],
                                        body[2],
                                        body[3],
                                        body[4],
                                        body[5],
                                        body[6],
                                        body[7],
                                    ),
                                    end_position_bits: be_u64_of(
                                        body[8],
                                        body[9],
                                        body[10],
                                        body[11],
                                        body[12],
                                        body[13],
                                        body[14],
                                        body[15],
                                    ),
                                    speed_factor_bits: be_u64_of(
                                        body[16],
                                        body[17],
                                        body[18],
                                        body[19],
                                        body[20],
                                        body[21],
                                        body[22],
                                        body[23],
                                    ),
                                },
                            ),
                            end,
                        ),
                    )
                } else {
                    None
                }
            } else {
                Some((FlipActionView::Unknown { id, data: body }, end))
            }
        }
    }
}

/// What `count` flip actions starting at `i` parse to, and where they
/// end.
pub open spec fn sp_take_actions(s: Seq<u8>, i: int, count: int) -> Option<
    (Seq<FlipActionView>, int),
>
    decreases count,
{
    if count <= 0 {
        Some((Seq::empty(), i))
    } else {
        match sp_take_action(s, i) {
            None => None,
            Some((a, j)) => match sp_take_actions(s, j, count - 1) {
                None => None,
                Some((rest, e)) => Some((seq![a] + rest, e)),
            },
        }
    }
}

/// Prepending one action shifts the summed declared sizes by one slot.
pub proof fn lemma_actions_size_cons(a: FlipActionView, rest: Seq<FlipActionView>, k: int)
    requires
        0 <= k <= rest.len(),
    ensures
        actions_size(seq![a] + rest, k + 1) == actions_size(rest, k),
    decreases rest.len() - k,
{
    if k < rest.len() {
        assert((seq![a] + rest)[k + 1] == rest[k]);
        lemma_actions_size_cons(a, rest, k + 1);
    }
}

/// Parsed actions are well formed: there are `count` of them, their
/// declared sizes fit and sum to no more than the bytes they came
/// from.
pub proof fn lemma_actions_wf(s: Seq<u8>, i: int, count: int)
    requires
        count >= 0,
        sp_take_actions(s, i, count) is Some,
    ensures
        match sp_take_actions(s, i, count) {
            Some((acts, e)) => {
                &&& acts.len() == count
                &&& i <= e
                &&& actions_size(acts, 0) <= e - i
                &&& forall|k: int| 0 <= k < acts.len() ==> action_size_ok(#[trigger] acts[k])
            },
            None => true,
        },
    decreases count,
{
    if count > 0 {
        let (a, j) = sp_take_action(s, i)->0;
        lemma_actions_wf(s, j, count - 1);
        let (rest, e) = sp_take_actions(s, j, count - 1)->0;
        lemma_actions_size_cons(a, rest, 0);
        assert((seq![a] + rest)[0] == a);
        assert(forall|k: int|
            1 <= k < 1 + rest.len() ==> (seq![a] + rest)[k] == rest[k - 1]);
    }
}

// ---------------------------------------------------------------------------
// Parsed form: marker bodies
// ---------------------------------------------------------------------------

/// What a `BPMLOCK` body parses to: one boolean byte.
pub open spec fn sp_bpmlock_of(body: Seq<u8>) -> Option<MarkerView> {
    if body.len() == 1 {
        Some(MarkerView::BPMLock(BPMLockMarker { is_locked: body[0] != 0 }))
    } else {
        None
    }
}

/// What a `COLOR` body parses to: a zero byte and three colour bytes.
pub open spec fn sp_color_marker_of(body: Seq<u8>) -> Option<MarkerView> {
    if body.len() == 4 && body[0] == 0 {
        Some(MarkerView::Color(TrackColorMarker { color: sp_color_at(body, 1) }))
    } else {
        None
    }
}

/// What a `CUE` body parses to: fixed bytes, index, position, colour,
/// then a null-terminated UTF-8 label that must close the body.
pub open spec fn sp_cue_of(body: Seq<u8>) -> Option<MarkerView> {
    if body.len() >= 13 && body[0] == 0 && body[6] == 0 && body[10] == 0 && body[11] == 0
        && first_nul_from(body, 12) == Some(body.len() - 1) && is_utf8(
        body.subrange(12, body.len() - 1),
    ) {
        Some(
            MarkerView::Cue(
                CueView {
                    index: body[1],
                    position_millis: be_u32_of(body[2], body[3], body[4], body[5]),
                    color: sp_color_at(body, 7),
                    label: body.subrange(12, body.len() - 1),
                },
            ),
        )
    } else {
        None
    }
}

/// What a `LOOP` body parses to.
pub open spec fn sp_loop_of(body: Seq<u8>) -> Option<MarkerView> {
    if body.len() >= 21 && body[0] == 0 && body[10] == 0xff && body[11] == 0xff && body[12] == 0xff
        && body[13] == 0xff && body[14] == 0 && body[18] == 0 && first_nul_from(body, 20) == Some(
        body.len() - 1,
    ) && is_utf8(body.subrange(20, body.len() - 1)) {
        Some(
            MarkerView::Loop(
                LoopView {
                    index: body[1],
                    start_position_millis: be_u32_of(body[2], body[3], body[4], body[5]),
                    end_position_millis: be_u32_of(body[6], body[7], body[8], body[9]),
                    color: sp_color_at(body, 15),
                    is_locked: body[19] != 0,
                    label: body.subrange(20, body.len() - 1),
                },
            ),
        )
    } else {
        None
    }
}

/// What a `FLIP` body parses to: fixed bytes, index, enabled flag, a
/// null-terminated UTF-8 label, loop flag, action count, then exactly
/// that many actions closing the body.
pub open spec fn sp_flip_of(body: Seq<u8>) -> Option<MarkerView> {
    if body.len() >= 3 && body[0] == 0 {
        match first_nul_from(body, 3) {
            None => None,
            Some(jn) => {
                if is_utf8(body.subrange(3, jn)) && jn + 6 <= body.len() {
                    let count = be_u32_of(body[jn + 2], body[jn + 3], body[jn + 4], body[jn + 5]);
                    match sp_take_actions(body, jn + 6, count as int) {
                        None => None,
                        Some((acts, e)) => {
                            if e == body.len() {
                                Some(
                                    MarkerView::Flip(
                                        FlipView {
                                            index: body[1],
                                            is_enabled: body[2] != 0,
                                            label: body.subrange(3, jn),
                                            is_loop: body[jn + 1] != 0,
                                            actions: acts,
                                        },
                                    ),
                                )
                            } else {
                                None
                            }
                        },
                    }
                } else {
                    None
                }
            },
        }
    } else {
        None
    }
}

// ---------------------------------------------------------------------------
// Parsers
// ---------------------------------------------------------------------------

/// Reads the body of a jump action: exactly two raw float64 values.
pub fn take_flip_marker_action_jump(body: &[u8]) -> (r: Result<FlipAction, Error>)
    ensures
        match r {
            Ok(a) => body@.len() == 16 && a.deep_view() == FlipActionView::Jump(
                JumpFlipAction {
                    source_position_bits: be_u64_of(
                        body@[0],
                        body@[1],
                        body@[2],
                        body@[3],
                        body@[4],
                        body@[5],
                        body@[6],
                        body@[7],
                    ),
                    target_position_bits: be_u64_of(
                        body@[8],
                        body@[9],
                        body@[10],
                        body@[11],
                        body@[12],
                        body@[13],
                        body@[14],
                        body@[15],
                    ),
                },
            ),
            Err(e) => body@.len() != 16 && e == Error::ParseError,
        },
{
    if body.len() != 16 {
        return Err(Error::ParseError);
    }
    let (source, j) = match take_be_u64(body, 0) {
        Ok(p) => p,
        Err(e) => {
            return Err(e);
        },
    };
    let (target, _) = match take_be_u64(body, j) {
        Ok(p) => p,
        Err(e) => {
            return Err(e);
        },
    };
    Ok(
        FlipAction::Jump(
            JumpFlipAction { source_position_bits: source, target_position_bits: target },
        ),
    )
}

/// Reads the body of a censor action: exactly three raw float64
/// values.
pub fn take_flip_marker_action_censor(body: &[u8]) -> (r: Result<FlipAction, Error>)
    ensures
        match r {
            Ok(a) => body@.len() == 24 && a.deep_view() == FlipActionView::Censor(
                CensorFlipAction {
                    start_position_bits: be_u64_of(
                        body@[0],
                        body@[1],
                        body@[2],
                        body@[3],
                        body@[4],
                        body@[5],
                        body@[6],
                        body@[7],
                    ),
                    end_position_bits: be_u64_of(
                        body@[8],
                        body@[9],
                        body@[10],
                        body@[11],
                        body@[12],
                        body@[13],
                        body@[14],
                        body@[15],
                    ),
                    speed_factor_bits: be_u64_of(
                        body@[16],
                        body@[17],
                        body@[18],
                        body@[19],
                        body@[20],
                        body@[21],
                        body@[22],
                        body@[23],
                    ),
                },
            ),
            Err(e) => body@.len() != 24 && e == Error::ParseError,
        },
{
    if body.len() != 24 {
        return Err(Error::ParseError);
    }
    let (start, j) = match take_be_u64(body, 0) {
        Ok(p) => p,
        Err(e) => {
            return Err(e);
        },
    };
    let (end, j2) = match take_be_u64(body, j) {
        Ok(p) => p,
        Err(e) => {
            return Err(e);
        },
    };
    let (speed, _) = match take_be_u64(body, j2) {
        Ok(p) => p,
        Err(e) => {
            return Err(e);
        },
    };
    Ok(
        FlipAction::Censor(
            CensorFlipAction {
                start_position_bits: start,
                end_position_bits: end,
                speed_factor_bits: speed,
            },
        ),
    )
}

/// Reads one flip action at `from`: id, `u32` length, payload.
pub fn take_flip_marker_action(input: &[u8], from: usize) -> (r: Result<(FlipAction, usize), Error>)
    requires
        from <= input@.len(),
    ensures
        match r {
            Ok((a, j)) => {
                &&& sp_take_action(input@, from as int) == Some((a.deep_view(), j as int))
                &&& from < j <= input@.len()
                &&& action_size_ok(a.deep_view())
            },
            Err(e) => sp_take_action(input@, from as int) is None && e == Error::ParseError,
        },
{
    if input.len() - from < 5 {
        return Err(Error::ParseError);
    }
    let id = input[from];
    let (len32, j5) = match take_be_u32(input, from + 1) {
        Ok(p) => p,
        Err(e) => {
            return Err(e);
        },
    };
    let len = len32 as usize;
    if input.len() - j5 < len {
        return Err(Error::ParseError);
    }
    let body = vstd::slice::slice_subrange(input, j5, j5 + len);
    let end = j5 + len;
    if id == 0 {
        match take_flip_marker_action_jump(body) {
            Ok(a) => {
                proof {
                    assert(sp_take_action(input@, from as int) == Some(
                        (a.deep_view(), end as int),
                    ));
                }
                Ok((a, end))
            },
            Err(_) => Err(Error::ParseError),
        }
    } else if id == 1 {
        match take_flip_marker_action_censor(body) {
            Ok(a) => {
                proof {
                    assert(sp_take_action(input@, from as int) == Some(
                        (a.deep_view(), end as int),
                    ));
                }
                Ok((a, end))
            },
            Err(_) => Err(Error::ParseError),
        }
    } else {
        let a = FlipAction::Unknown(
            UnknownFlipAction { id, data: vstd::slice::slice_to_vec(body) },
        );
        proof {
            assert(a.deep_view() =~= (FlipActionView::Unknown {
                id,
                data: input@.subrange(from + 5, from + 5 + len as int),
            }));
        }
        Ok((a, end))
    }
}

/// Reads the body of a `BPMLOCK` marker: one boolean byte.
pub fn take_bpmlock_marker(body: &[u8]) -> (r: Result<Marker, Error>)
    ensures
        match r {
            Ok(m) => sp_bpmlock_of(body@) == Some(m.deep_view()) && marker_wf(m.deep_view()),
            Err(e) => sp_bpmlock_of(body@) is None && e == Error::ParseError,
        },
{
    if body.len() == 1 {
        Ok(Marker::BPMLock(BPMLockMarker { is_locked: body[0] != 0 }))
    } else {
        Err(Error::ParseError)
    }
}

/// Reads the body of a `COLOR` marker: a zero byte and the colour.
pub fn take_color_marker(body: &[u8]) -> (r: Result<Marker, Error>)
    ensures
        match r {
            Ok(m) => sp_color_marker_of(body@) == Some(m.deep_view()) && marker_wf(m.deep_view()),
            Err(e) => sp_color_marker_of(body@) is None && e == Error::ParseError,
        },
{
    if body.len() == 4 && body[0] == 0 {
        let (color, _) = match take_color(body, 1) {
            Ok(p) => p,
            Err(e) => {
                return Err(e);
            },
        };
        Ok(Marker::Color(TrackColorMarker { color }))
    } else {
        Err(Error::ParseError)
    }
}

/// Reads the body of a `CUE` marker.
pub fn take_cue_marker(body: &[u8]) -> (r: Result<Marker, Error>)
    requires
        body@.len() <= u32::MAX,
    ensures
        match r {
            Ok(m) => sp_cue_of(body@) == Some(m.deep_view()) && marker_wf(m.deep_view()),
            Err(e) => sp_cue_of(body@) is None && e == Error::ParseError,
        },
{
    if body.len() < 13 {
        return Err(Error::ParseError);
    }
    if body[0] != 0 || body[6] != 0 || body[10] != 0 || body[11] != 0 {
        return Err(Error::ParseError);
    }
    let (label, j) = match take_utf8(body, 12) {
        Ok(p) => p,
        Err(_) => {
            return Err(Error::ParseError);
        },
    };
    if j != body.len() {
        return Err(Error::ParseError);
    }
    let (position_millis, _) = match take_be_u32(body, 2) {
        Ok(p) => p,
        Err(e) => {
            return Err(e);
        },
    };
    let (color, _) = match take_color(body, 7) {
        Ok(p) => p,
        Err(e) => {
            return Err(e);
        },
    };
    let m = Marker::Cue(Cue { index: body[1], position_millis, color, label });
    proof {
        assert(m.deep_view() =~= MarkerView::Cue(
            CueView {
                index: body@[1],
                position_millis: be_u32_of(body@[2], body@[3], body@[4], body@[5]),
                color: sp_color_at(body@, 7),
                label: body@.subrange(12, body@.len() - 1),
            },
        ));
    }
    Ok(m)
}

/// Reads the body of a `LOOP` marker.
pub fn take_loop_marker(body: &[u8]) -> (r: Result<Marker, Error>)
    requires
        body@.len() <= u32::MAX,
    ensures
        match r {
            Ok(m) => sp_loop_of(body@) == Some(m.deep_view()) && marker_wf(m.deep_view()),
            Err(e) => sp_loop_of(body@) is None && e == Error::ParseError,
        },
{
    if body.len() < 21 {
        return Err(Error::ParseError);
    }
    if body[0] != 0 || body[10] != 0xff || body[11] != 0xff || body[12] != 0xff || body[13] != 0xff
        || body[14] != 0 || body[18] != 0 {
        return Err(Error::ParseError);
    }
    let (label, j) = match take_utf8(body, 20) {
        Ok(p) => p,
        Err(_) => {
            return Err(Error::ParseError);
        },
    };
    if j != body.len() {
        return Err(Error::ParseError);
    }
    let (start_position_millis, _) = match take_be_u32(body, 2) {
        Ok(p) => p,
        Err(e) => {
            return Err(e);
        },
    };
    let (end_position_millis, _) = match take_be_u32(body, 6) {
        Ok(p) => p,
        Err(e) => {
            return Err(e);
        },
    };
    let (color, _) = match take_color(body, 15) {
        Ok(p) => p,
        Err(e) => {
            return Err(e);
        },
    };
    let m = Marker::Loop(
        Loop {
            index: body[1],
            start_position_millis,
            end_position_millis,
            color,
            is_locked: body[19] != 0,
            label,
        },
    );
    proof {
        assert(m.deep_view() =~= MarkerView::Loop(
            LoopView {
                index: body@[1],
                start_position_millis: be_u32_of(body@[2], body@[3], body@[4], body@[5]),
                end_position_millis: be_u32_of(body@[6], body@[7], body@[8], body@[9]),
                color: sp_color_at(body@, 15),
                is_locked: body@[19] != 0,
                label: body@.subrange(20, body@.len() - 1),
            },
        ));
    }
    Ok(m)
}

/// Reads the body of a `FLIP` marker.
#[verifier::loop_isolation(false)]
pub fn take_flip_marker(body: &[u8]) -> (r: Result<Marker, Error>)
    requires
        body@.len() <= u32::MAX,
    ensures
        match r {
            Ok(m) => sp_flip_of(body@) == Some(m.deep_view()) && marker_wf(m.deep_view()),
            Err(e) => sp_flip_of(body@) is None && e == Error::ParseError,
        },
{
    if body.len() < 3 || body[0] != 0 {
        return Err(Error::ParseError);
    }
    let (label, jl) = match take_utf8(body, 3) {
        Ok(p) => p,
        Err(_) => {
            return Err(Error::ParseError);
        },
    };
    let ghost jn = jl as int - 1;
    proof {
        crate::util::lemma_first_nul_from(body@, 3);
    }
    if body.len() - jl < 5 {
        return Err(Error::ParseError);
    }
    let is_loop = body[jl] != 0;
    let (count, start) = match take_be_u32(body, jl + 1) {
        Ok(p) => p,
        Err(e) => {
            return Err(e);
        },
    };
    let mut actions: Vec<FlipAction> = Vec::new();
    let mut pos: usize = start;
    let mut k: u32 = 0;
    while k < count
        invariant
            0 <= k <= count,
            body@.len() <= u32::MAX,
            start == jl + 5 <= body@.len(),
            jl + 5 <= pos <= body@.len(),
            actions.deep_view().len() == k,
            forall|t: int|
                0 <= t < k ==> action_size_ok(#[trigger] actions.deep_view()[t]),
            match sp_take_actions(body@, pos as int, (count - k) as int) {
                Some((rest, e)) => sp_take_actions(body@, start as int, count as int) == Some(
                    (actions.deep_view() + rest, e),
                ),
                None => sp_take_actions(body@, start as int, count as int) is None,
            },
        decreases count - k,
    {
        match take_flip_marker_action(body, pos) {
            Ok((a, np)) => {
                let ghost prev = actions.deep_view();
                actions.push(a);
                proof {
                    assert(actions.deep_view() =~= prev + seq![a.deep_view()]);
                    match sp_take_actions(body@, np as int, (count - k - 1) as int) {
                        Some((rest2, e2)) => {
                            assert(sp_take_actions(body@, pos as int, (count - k) as int) == Some(
                                ((seq![a.deep_view()] + rest2), e2),
                            ));
                            assert(prev + (seq![a.deep_view()] + rest2) =~= (prev + seq![
                                a.deep_view(),
                            ]) + rest2);
                        },
                        None => {},
                    }
                }
                pos = np;
                k = k + 1;
            },
            Err(_) => {
                proof {
                    assert(first_nul_from(body@, 3) == Some(jn));
                    assert(sp_take_actions(body@, pos as int, (count - k) as int) is None);
                    assert(sp_take_actions(body@, start as int, count as int) is None);
                    assert(sp_flip_of(body@) is None);
                }
                return Err(Error::ParseError);
            },
        }
    }
    if pos != body.len() {
        proof {
            assert(sp_take_actions(body@, pos as int, 0) == Some(
                (Seq::<FlipActionView>::empty(), pos as int),
            ));
        }
        return Err(Error::ParseError);
    }
    proof {
        assert(sp_take_actions(body@, pos as int, 0) == Some(
            (Seq::<FlipActionView>::empty(), pos as int),
        ));
        assert(actions.deep_view() + Seq::<FlipActionView>::empty() =~= actions.deep_view());
    }
    let m = Marker::Flip(
        Flip { index: body[1], is_enabled: body[2] != 0, label, is_loop, actions },
    );
    proof {
        lemma_actions_wf(body@, start as int, count as int);
        assert(m.deep_view() =~= MarkerView::Flip(
            FlipView {
                index: body@[1],
                is_enabled: body@[2] != 0,
                label: body@.subrange(3, jn),
                is_loop: body@[jn + 1] != 0,
                actions: actions.deep_view(),
            },
        ));
    }
    Ok(m)
}

// ---------------------------------------------------------------------------
// Whole markers and the marker sequence
// ---------------------------------------------------------------------------

/// What one marker at `i` parses to, and where it ends: a non-empty
/// null-terminated UTF-8 name, a `u32` length, and exactly that many
/// body bytes, handed to the parser the name picks. An unknown name
/// keeps its body verbatim.
pub open spec fn sp_take_marker(s: Seq<u8>, i: int) -> Option<(MarkerView, int)> {
    if i < 0 || i >= s.len() || s[i] == 0 {
        None
    } else {
        match sp_take_utf8(s, i) {
            None => None,
            Some((name, j)) => {
                if j + 4 > s.len() {
                    None
                } else {
                    let len = be_u32_of(s[j], s[j + 1], s[j + 2], s[j + 3]) as int;
                    if j + 4 + len > s.len() {
                        None
                    } else {
                        let body = s.subrange(j + 4, j + 4 + len);
                        let end = j + 4 + len;
                        if name == name_bpmlock() {
                            match sp_bpmlock_of(body) {
                                Some(m) => Some((m, end)),
                                None => None,
                            }
                        } else if name == name_color() {
                            match sp_color_marker_of(body) {
                                Some(m) => Some((m, end)),
                                None => None,
                            }
                        } else if name == name_cue() {
                            match sp_cue_of(body) {
                                Some(m) => Some((m, end)),
                                None => None,
                            }
                        } else if name == name_loop() {
                            match sp_loop_of(body) {
                                Some(m) => Some((m, end)),
                                None => None,
                            }
                        } else if name == name_flip() {
                            match sp_flip_of(body) {
                                Some(m) => Some((m, end)),
                                None => None,
                            }
                        } else {
                            Some((MarkerView::Unknown(UnknownMarkerView { name, data: body }), end))
                        }
                    }
                }
            },
        }
    }
}

/// What the markers from `i` to the end of the payload parse to. The
/// sequence must fill the payload exactly; a malformed marker fails
/// the whole parse.
pub open spec fn sp_take_markers(s: Seq<u8>, i: int) -> Option<Seq<MarkerView>>
    decreases s.len() - i,
{
    if i == s.len() {
        Some(Seq::empty())
    } else {
        match sp_take_marker(s, i) {
            None => None,
            Some((m, j)) => {
                if i < j <= s.len() {
                    match sp_take_markers(s, j) {
                        None => None,
                        Some(rest) => Some(seq![m] + rest),
                    }
                } else {
                    None
                }
            },
        }
    }
}

/// What a decoded inner payload parses to: the inner version record
/// followed by markers that fill the payload exactly.
pub open spec fn sp_content_of(s: Seq<u8>) -> Option<Markers2ContentView> {
    if s.len() >= 2 {
        match sp_take_markers(s, 2) {
            Some(ms) => Some(
                Markers2ContentView { version: Version { major: s[0], minor: s[1] }, markers: ms },
            ),
            None => None,
        }
    } else {
        None
    }
}

/// True when every marker of the content is well formed, as parsing
/// leaves them.
pub open spec fn content_wf(c: Markers2ContentView) -> bool {
    forall|k: int| 0 <= k < c.markers.len() ==> marker_wf(#[trigger] c.markers[k])
}

/// Every well-formed content is writable.
pub proof fn lemma_content_wf_writable(c: Markers2ContentView)
    requires
        content_wf(c),
    ensures
        content_writable(c),
{
}

/// Reads a marker's name at `from`: a non-empty null-terminated UTF-8
/// string not starting with a null byte.
pub fn take_marker_name(input: &[u8], from: usize) -> (r: Result<(Vec<u8>, usize), Error>)
    requires
        from <= input@.len(),
    ensures
        match r {
            Ok((name, j)) => {
                &&& from < input@.len() && input@[from as int] != 0
                &&& sp_take_utf8(input@, from as int) == Some((name@, j as int))
                &&& name@.len() >= 1 && label_wf(name@)
                &&& from < j <= input@.len()
            },
            Err(e) => {
                &&& (from >= input@.len() || input@[from as int] == 0 || sp_take_utf8(
                    input@,
                    from as int,
                ) is None)
                &&& e == Error::ParseError
            },
        },
{
    if from == input.len() || input[from] == 0 {
        return Err(Error::ParseError);
    }
    match take_utf8(input, from) {
        Ok((name, j)) => {
            proof {
                crate::util::lemma_first_nul_from(input@, from as int);
            }
            Ok((name, j))
        },
        Err(e) => Err(e),
    }
}

/// Compares a name against `BPMLOCK`.
fn is_name_bpmlock(name: &[u8]) -> (r: bool)
    ensures
        r == (name@ == name_bpmlock()),
{
    let r = name.len() == 7 && name[0] == 66 && name[1] == 80 && name[2] == 77 && name[3] == 76
        && name[4] == 79 && name[5] == 67 && name[6] == 75;
    proof {
        if r {
            assert(name@ =~= name_bpmlock());
        } else {
            if name@ == name_bpmlock() {
                assert(name@.len() == 7);
                assert(name@[0] == 66 && name@[1] == 80 && name@[2] == 77 && name@[3] == 76
                    && name@[4] == 79 && name@[5] == 67 && name@[6] == 75);
            }
        }
    }
    r
}

/// Compares a name against `COLOR`.
fn is_name_color(name: &[u8]) -> (r: bool)
    ensures
        r == (name@ == name_color()),
{
    let r = name.len() == 5 && name[0] == 67 && name[1] == 79 && name[2] == 76 && name[3] == 79
        && name[4] == 82;
    proof {
        if r {
            assert(name@ =~= name_color());
        } else {
            if name@ == name_color() {
                assert(name@.len() == 5);
                assert(name@[0] == 67 && name@[1] == 79 && name@[2] == 76 && name@[3] == 79
                    && name@[4] == 82);
            }
        }
    }
    r
}

/// Compares a name against `CUE`.
fn is_name_cue(name: &[u8]) -> (r: bool)
    ensures
        r == (name@ == name_cue()),
{
    let r = name.len() == 3 && name[0] == 67 && name[1] == 85 && name[2] == 69;
    proof {
        if r {
            assert(name@ =~= name_cue());
        } else {
            if name@ == name_cue() {
                assert(name@.len() == 3);
                assert(name@[0] == 67 && name@[1] == 85 && name@[2] == 69);
            }
        }
    }
    r
}

/// Compares a name against `LOOP`.
fn is_name_loop(name: &[u8]) -> (r: bool)
    ensures
        r == (name@ == name_loop()),
{
    let r = name.len() == 4 && name[0] == 76 && name[1] == 79 && name[2] == 79 && name[3] == 80;
    proof {
        if r {
            assert(name@ =~= name_loop());
        } else {
            if name@ == name_loop() {
                assert(name@.len() == 4);
                assert(name@[0] == 76 && name@[1] == 79 && name@[2] == 79 && name@[3] == 80);
            }
        }
    }
    r
}

/// Compares a name against `FLIP`.
fn is_name_flip(name: &[u8]) -> (r: bool)
    ensures
        r == (name@ == name_flip()),
{
    let r = name.len() == 4 && name[0] == 70 && name[1] == 76 && name[2] == 73 && name[3] == 80;
    proof {
        if r {
            assert(name@ =~= name_flip());
        } else {
            if name@ == name_flip() {
                assert(name@.len() == 4);
                assert(name@[0] == 70 && name@[1] == 76 && name@[2] == 73 && name@[3] == 80);
            }
        }
    }
    r
}

/// Reads one marker at `from`: name, length, and the body that the
/// name's parser accepts.
pub fn take_marker(input: &[u8], from: usize) -> (r: Result<(Marker, usize), Error>)
    requires
        from <= input@.len(),
    ensures
        match r {
            Ok((m, j)) => {
                &&& sp_take_marker(input@, from as int) == Some((m.deep_view(), j as int))
                &&& from < j <= input@.len()
                &&& marker_wf(m.deep_view())
            },
            Err(e) => sp_take_marker(input@, from as int) is None && e == Error::ParseError,
        },
{
    let (name, j) = match take_marker_name(input, from) {
        Ok(p) => p,
        Err(_) => {
            return Err(Error::ParseError);
        },
    };
    let (len32, j4) = match take_be_u32(input, j) {
        Ok(p) => p,
        Err(_) => {
            return Err(Error::ParseError);
        },
    };
    let len = len32 as usize;
    if input.len() - j4 < len {
        return Err(Error::ParseError);
    }
    let body = vstd::slice::slice_subrange(input, j4, j4 + len);
    let end = j4 + len;
    if is_name_bpmlock(name.as_slice()) {
        match take_bpmlock_marker(body) {
            Ok(m) => Ok((m, end)),
            Err(_) => Err(Error::ParseError),
        }
    } else if is_name_color(name.as_slice()) {
        match take_color_marker(body) {
            Ok(m) => Ok((m, end)),
            Err(_) => Err(Error::ParseError),
        }
    } else if is_name_cue(name.as_slice()) {
        match take_cue_marker(body) {
            Ok(m) => Ok((m, end)),
            Err(_) => Err(Error::ParseError),
        }
    } else if is_name_loop(name.as_slice()) {
        match take_loop_marker(body) {
            Ok(m) => Ok((m, end)),
            Err(_) => Err(Error::ParseError),
        }
    } else if is_name_flip(name.as_slice()) {
        match take_flip_marker(body) {
            Ok(m) => Ok((m, end)),
            Err(_) => Err(Error::ParseError),
        }
    } else {
        let m = Marker::Unknown(UnknownMarker { name, data: vstd::slice::slice_to_vec(body) });
        proof {
            assert(m.deep_view() =~= MarkerView::Unknown(
                UnknownMarkerView {
                    name: name@,
                    data: input@.subrange(j as int + 4, j as int + 4 + len as int),
                },
            ));
        }
        Ok((m, end))
    }
}

/// Parses a decoded inner payload: the inner version record followed
/// by markers that fill it exactly.
#[verifier::loop_isolation(false)]
pub fn parse_markers2_content(input: &[u8]) -> (r: Result<Markers2Content, Error>)
    ensures
        match r {
            Ok(c) => sp_content_of(input@) == Some(c.deep_view()) && content_wf(c.deep_view()),
            Err(e) => sp_content_of(input@) is None && e == Error::ParseError,
        },
{
    if input.len() < 2 {
        return Err(Error::ParseError);
    }
    let version = Version { major: input[0], minor: input[1] };
    let mut markers: Vec<Marker> = Vec::new();
    let mut pos: usize = 2;
    while pos < input.len()
        invariant
            2 <= pos <= input@.len(),
            forall|t: int|
                0 <= t < markers.deep_view().len() ==> marker_wf(
                    #[trigger] markers.deep_view()[t],
                ),
            match sp_take_markers(input@, pos as int) {
                Some(rest) => sp_take_markers(input@, 2) == Some(markers.deep_view() + rest),
                None => sp_take_markers(input@, 2) is None,
            },
        decreases input@.len() - pos,
    {
        match take_marker(input, pos) {
            Ok((m, j)) => {
                let ghost prev = markers.deep_view();
                markers.push(m);
                proof {
                    assert(markers.deep_view() =~= prev + seq![m.deep_view()]);
                    match sp_take_markers(input@, j as int) {
                        Some(rest2) => {
                            assert(sp_take_markers(input@, pos as int) == Some(
                                seq![m.deep_view()] + rest2,
                            ));
                            assert(prev + (seq![m.deep_view()] + rest2) =~= (prev + seq![
                                m.deep_view(),
                            ]) + rest2);
                        },
                        None => {},
                    }
                }
                pos = j;
            },
            Err(_) => {
                return Err(Error::ParseError);
            },
        }
    }
    proof {
        assert(sp_take_markers(input@, pos as int) == Some(Seq::<MarkerView>::empty()));
        assert(markers.deep_view() + Seq::<MarkerView>::empty() =~= markers.deep_view());
    }
    let c = Markers2Content { version, markers };
    proof {
        assert(c.deep_view() =~= (Markers2ContentView {
            version: Version { major: input@[0], minor: input@[1] },
            markers: markers.deep_view(),
        }));
    }
    Ok(c)
}

// ---------------------------------------------------------------------------
// The chunked base64 envelope
// ---------------------------------------------------------------------------

/// Returns true if `chr` is a valid base64 alphabet character.
pub fn is_base64(chr: u8) -> (r: bool)
    ensures
        r == is_b64_byte(chr),
{
    (chr >= 0x41 && chr <= 0x5a) || (chr >= 0x61 && chr <= 0x7a) || (chr >= 0x30 && chr <= 0x39)
        || chr == 0x2b || chr == 0x2f
}

/// True when a null byte stands at `from` (non-consuming).
pub fn peek_nullbyte(input: &[u8], from: usize) -> (r: bool)
    requires
        from <= input@.len(),
    ensures
        r == (from < input@.len() && input@[from as int] == 0),
{
    from < input.len() && input[from] == 0
}

/// True when a newline or null byte stands at `from` (non-consuming).
pub fn peek_newline_or_nullbyte(input: &[u8], from: usize) -> (r: bool)
    requires
        from <= input@.len(),
    ensures
        r == (from < input@.len() && (input@[from as int] == 0x0a || input@[from as int] == 0)),
{
    from < input.len() && (input[from] == 0x0a || input[from] == 0)
}

/// The first index at or after `i` that does not hold a base64 byte.
pub open spec fn sp_b64_run_end(s: Seq<u8>, i: int) -> int
    decreases s.len() - i,
{
    if i < 0 || i >= s.len() || !is_b64_byte(s[i]) {
        i
    } else {
        sp_b64_run_end(s, i + 1)
    }
}

/// A base64 run that ends at a non-base64 byte (or at the end) is what
/// `sp_b64_run_end` finds.
pub proof fn lemma_b64_run_end_at(s: Seq<u8>, i: int, j: int)
    requires
        0 <= i <= j <= s.len(),
        forall|k: int| i <= k < j ==> is_b64_byte(s[k]),
        j == s.len() || !is_b64_byte(s[j]),
    ensures
        sp_b64_run_end(s, i) == j,
    decreases j - i,
{
    if i < j {
        lemma_b64_run_end_at(s, i + 1, j);
    }
}

/// The first index at or after `i` that does not hold a null byte.
pub open spec fn sp_nul_run_end(s: Seq<u8>, i: int) -> int
    decreases s.len() - i,
{
    if i < 0 || i >= s.len() || s[i] != 0 {
        i
    } else {
        sp_nul_run_end(s, i + 1)
    }
}

/// A null run that ends at a non-null byte (or at the end) is what
/// `sp_nul_run_end` finds.
pub proof fn lemma_nul_run_end_at(s: Seq<u8>, i: int, j: int)
    requires
        0 <= i <= j <= s.len(),
        forall|k: int| i <= k < j ==> s[k] == 0,
        j == s.len() || s[j] != 0,
    ensures
        sp_nul_run_end(s, i) == j,
    decreases j - i,
{
    if i < j {
        lemma_nul_run_end_at(s, i + 1, j);
    }
}

/// What the base64 chunk list starting at `i` parses to, and where the
/// terminating null byte stands: runs of base64 bytes, each followed
/// by a newline (continue) or a null byte (stop).
pub open spec fn sp_take_chunks(s: Seq<u8>, i: int) -> Option<(Seq<Seq<u8>>, int)>
    decreases s.len() - i,
{
    if 0 <= i < s.len() && s[i] == 0 {
        Some((Seq::empty(), i))
    } else {
        let j = sp_b64_run_end(s, i);
        if j <= i || j >= s.len() {
            None
        } else if s[j] == 0 {
            match sp_take_chunks(s, j) {
                None => None,
                Some((cs, e)) => Some((seq![s.subrange(i, j)] + cs, e)),
            }
        } else if s[j] == 0x0a {
            match sp_take_chunks(s, j + 1) {
                None => None,
                Some((cs, e)) => Some((seq![s.subrange(i, j)] + cs, e)),
            }
        } else {
            None
        }
    }
}

/// What decoding one chunk returns: chunks whose length is one more
/// than a multiple of four get one `A` appended first, reproducing the
/// retry against Serato's emitter, which drops trailing padding.
pub open spec fn sp_chunk_decode(c: Seq<u8>) -> Option<Seq<u8>> {
    if c.len() % 4 == 1 {
        b64_decode_of(c.push(0x41))
    } else {
        b64_decode_of(c)
    }
}

/// What decoding the chunks from `i` on yields: their decoded bytes
/// concatenated. A chunk longer than 72 bytes violates the grammar; a
/// chunk that does not decode even after the retry is a base64 error.
pub open spec fn sp_decode_chunks(cs: Seq<Seq<u8>>, i: int) -> Result<Seq<u8>, Error>
    decreases cs.len() - i,
{
    if i < 0 || i >= cs.len() {
        Ok(Seq::empty())
    } else if cs[i].len() > 72 {
        Err(Error::ParseError)
    } else {
        match sp_chunk_decode(cs[i]) {
            None => Err(Error::Base64Error),
            Some(d) => match sp_decode_chunks(cs, i + 1) {
                Ok(rest) => Ok(d + rest),
                Err(e) => Err(e),
            },
        }
    }
}

/// What the whole enveloped region from `from` to the end of the
/// payload decodes to: the chunk list, the terminating null byte and
/// any null padding, which must close the payload, then the decoded
/// bytes of every chunk.
pub open spec fn sp_enveloped(s: Seq<u8>, from: int) -> Result<Seq<u8>, Error> {
    match sp_take_chunks(s, from) {
        None => Err(Error::ParseError),
        Some((cs, i)) => {
            if sp_nul_run_end(s, i) != s.len() {
                Err(Error::ParseError)
            } else {
                sp_decode_chunks(cs, 0)
            }
        },
    }
}

/// Reads base64 chunks, the null terminator and padding, which must
/// close the payload, and decodes the chunks.
#[verifier::loop_isolation(false)]
fn decode_enveloped(input: &[u8], from: usize) -> (r: Result<Vec<u8>, Error>)
    requires
        from <= input@.len(),
    ensures
        match r {
            Ok(d) => sp_enveloped(input@, from as int) == Ok::<Seq<u8>, Error>(d@),
            Err(e) => sp_enveloped(input@, from as int) == Err::<Seq<u8>, Error>(e),
        },
{
    let n = input.len();
    let mut chunks: Vec<Vec<u8>> = Vec::new();
    let mut i: usize = from;
    while i >= n || input[i] != 0
        invariant
            from <= i <= n,
            match sp_take_chunks(input@, i as int) {
                Some((cs, e)) => sp_take_chunks(input@, from as int) == Some(
                    (chunks.deep_view() + cs, e),
                ),
                None => sp_take_chunks(input@, from as int) is None,
            },
        decreases n - i,
    {
        let mut j: usize = i;
        while j < n && is_base64(input[j])
            invariant
                i <= j <= n,
                forall|k: int| i <= k < j ==> is_b64_byte(input@[k]),
            decreases n - j,
        {
            j = j + 1;
        }
        proof {
            lemma_b64_run_end_at(input@, i as int, j as int);
        }
        if j == i || j == n {
            return Err(Error::ParseError);
        }
        let chunk = vstd::slice::slice_to_vec(vstd::slice::slice_subrange(input, i, j));
        if input[j] == 0 {
            let ghost prev = chunks.deep_view();
            chunks.push(chunk);
            proof {
                assert(chunks.deep_view() =~= prev + seq![input@.subrange(i as int, j as int)]);
                match sp_take_chunks(input@, j as int) {
                    Some((cs2, e2)) => {
                        assert(prev + (seq![input@.subrange(i as int, j as int)] + cs2) =~= (prev
                            + seq![input@.subrange(i as int, j as int)]) + cs2);
                    },
                    None => {},
                }
            }
            i = j;
        } else if input[j] == 0x0a {
            let ghost prev = chunks.deep_view();
            chunks.push(chunk);
            proof {
                assert(chunks.deep_view() =~= prev + seq![input@.subrange(i as int, j as int)]);
                match sp_take_chunks(input@, j as int + 1) {
                    Some((cs2, e2)) => {
                        assert(prev + (seq![input@.subrange(i as int, j as int)] + cs2) =~= (prev
                            + seq![input@.subrange(i as int, j as int)]) + cs2);
                    },
                    None => {},
                }
            }
            i = j + 1;
        } else {
            return Err(Error::ParseError);
        }
    }
    proof {
        assert(sp_take_chunks(input@, i as int) == Some(
            (Seq::<Seq<u8>>::empty(), i as int),
        ));
        assert(chunks.deep_view() + Seq::<Seq<u8>>::empty() =~= chunks.deep_view());
    }
    let mut p: usize = i;
    while p < n && input[p] == 0
        invariant
            i <= p <= n,
            forall|k: int| i <= k < p ==> input@[k] == 0,
        decreases n - p,
    {
        p = p + 1;
    }
    proof {
        lemma_nul_run_end_at(input@, i as int, p as int);
    }
    if p != n {
        return Err(Error::ParseError);
    }
    let ghost cs = chunks.deep_view();
    let mut decoded: Vec<u8> = Vec::new();
    let m = chunks.len();
    let mut k: usize = 0;
    while k < m
        invariant
            0 <= k <= m,
            m == chunks@.len(),
            cs == chunks.deep_view(),
            match sp_decode_chunks(cs, k as int) {
                Ok(rest) => sp_decode_chunks(cs, 0) == Ok::<Seq<u8>, Error>(decoded@ + rest),
                Err(e) => sp_decode_chunks(cs, 0) == Err::<Seq<u8>, Error>(e),
            },
        decreases m - k,
    {
        proof {
            assert(cs[k as int] == chunks@[k as int].deep_view());
        }
        if chunks[k].len() > 72 {
            return Err(Error::ParseError);
        }
        let dec = if chunks[k].len() % 4 == 1 {
            let mut v = clone_bytes(&chunks[k]);
            v.push(0x41);
            proof {
                assert(v@ =~= cs[k as int].push(0x41));
            }
            b64_decode(v.as_slice())
        } else {
            b64_decode(chunks[k].as_slice())
        };
        match dec {
            Some(mut d) => {
                let ghost prevd = decoded@;
                let ghost dv = d@;
                decoded.append(&mut d);
                proof {
                    assert(sp_chunk_decode(cs[k as int]) == Some(dv));
                    match sp_decode_chunks(cs, k as int + 1) {
                        Ok(rest2) => {
                            assert(prevd + (dv + rest2) =~= (prevd + dv) + rest2);
                        },
                        Err(_) => {},
                    }
                }
            },
            None => {
                proof {
                    assert(sp_chunk_decode(cs[k as int]) is None);
                }
                return Err(Error::Base64Error);
            },
        }
        k = k + 1;
    }
    proof {
        assert(decoded@ + Seq::<u8>::empty() =~= decoded@);
    }
    Ok(decoded)
}

// ---------------------------------------------------------------------------
// The whole tag
// ---------------------------------------------------------------------------

/// What a raw `Serato Markers2` payload parses to: an outer version
/// record, then the enveloped chunks, whose decoded bytes must hold a
/// well-formed inner payload.
pub open spec fn sp_markers2(s: Seq<u8>) -> Result<Markers2View, Error> {
    if s.len() < 2 {
        Err(Error::ParseError)
    } else {
        match sp_enveloped(s, 2) {
            Err(e) => Err(e),
            Ok(d) => match sp_content_of(d) {
                None => Err(Error::ParseError),
                Some(c) => Ok(
                    Markers2View {
                        version: Some(Version { major: s[0], minor: s[1] }),
                        size: s.len() as int,
                        content: c,
                    },
                ),
            },
        }
    }
}

/// What an Ogg `Serato Markers2` payload parses to: the enveloped
/// chunks alone, with no outer version record.
pub open spec fn sp_markers2_ogg(s: Seq<u8>) -> Result<Markers2View, Error> {
    match sp_enveloped(s, 0) {
        Err(e) => Err(e),
        Ok(d) => match sp_content_of(d) {
            None => Err(Error::ParseError),
            Some(c) => Ok(Markers2View { version: None, size: s.len() as int, content: c }),
        },
    }
}

/// Parses a raw `Serato Markers2` payload.
pub fn take_markers2(input: &[u8]) -> (r: Result<Markers2, Error>)
    ensures
        match r {
            Ok(m) => {
                &&& sp_markers2(input@) == Ok::<Markers2View, Error>(m.deep_view())
                &&& content_wf(m.content.deep_view())
            },
            Err(e) => sp_markers2(input@) == Err::<Markers2View, Error>(e),
        },
{
    if input.len() < 2 {
        return Err(Error::ParseError);
    }
    let version = Version { major: input[0], minor: input[1] };
    let decoded = match decode_enveloped(input, 2) {
        Ok(d) => d,
        Err(e) => {
            return Err(e);
        },
    };
    match parse_markers2_content(decoded.as_slice()) {
        Ok(content) => {
            let m = Markers2 { version: Some(version), size: input.len(), content };
            proof {
                assert(m.deep_view() =~= sp_markers2(input@)->Ok_0);
            }
            Ok(m)
        },
        Err(_) => Err(Error::ParseError),
    }
}

/// A run of `n` null bytes (none when `n` is not positive).
pub open spec fn sp_zeros(n: int) -> Seq<u8> {
    if n <= 0 {
        Seq::empty()
    } else {
        Seq::new(n as nat, |x: int| 0u8)
    }
}

/// The encoded text wrapped into lines: chunks of 72 bytes separated
/// by newlines, the last line at most 72 bytes.
pub open spec fn sp_chunked(e: Seq<u8>, i: int) -> Seq<u8>
    decreases e.len() - i,
{
    if i < 0 || e.len() - i <= 72 {
        e.subrange(i, e.len() as int)
    } else {
        e.subrange(i, i + 72) + seq![0x0au8] + sp_chunked(e, i + 72)
    }
}

/// The serialised enveloped region of a tag: the line-wrapped base64
/// of the inner payload, a terminating null byte, and null padding out
/// to `size` less the `head` bytes that precede the region.
pub open spec fn sp_enveloped_out(content: Markers2ContentView, size: int, head: int) -> Seq<u8> {
    let enc = sp_chunked(b64_of(content_bytes(content)), 0) + seq![0u8];
    enc + sp_zeros(size - head - enc.len())
}

/// The serialised raw payload: the outer version record, then the
/// enveloped region padded out to `size`.
pub open spec fn sp_markers2_out(m: Markers2View) -> Seq<u8> {
    version_bytes(m.version->0) + sp_enveloped_out(m.content, m.size, 2)
}

/// The serialised Ogg payload: the enveloped region alone, padded out
/// to `size`.
pub open spec fn sp_markers2_ogg_out(m: Markers2View) -> Seq<u8> {
    sp_enveloped_out(m.content, m.size, 0)
}

/// Appends the bytes of `s` from `a` to `b`.
fn write_slice_part(out: &mut Vec<u8>, s: &[u8], a: usize, b: usize)
    requires
        a <= b <= s@.len(),
    ensures
        final(out)@ == old(out)@ + s@.subrange(a as int, b as int),
{
    let mut i: usize = a;
    while i < b
        invariant
            a <= i <= b <= s@.len(),
            out@ == old(out)@ + s@.subrange(a as int, i as int),
        decreases b - i,
    {
        out.push(s[i]);
        i = i + 1;
        proof {
            assert(out@ =~= old(out)@ + s@.subrange(a as int, i as int));
        }
    }
}

/// Appends the enveloped region: the inner payload base64-encoded,
/// wrapped into lines of at most 72 bytes, terminated by a null byte,
/// and padded with null bytes until the whole output reaches `size`.
#[verifier::loop_isolation(false)]
fn write_enveloped(out: &mut Vec<u8>, content: &Markers2Content, size: usize)
    requires
        content_writable(content.deep_view()),
        content_bytes(content.deep_view()).len() < usize::MAX / 8,
        old(out)@.len() + 2 < usize::MAX / 2,
    ensures
        final(out)@ == old(out)@ + sp_enveloped_out(
            content.deep_view(),
            size as int,
            old(out)@.len() as int,
        ),
{
    let ghost head = out@.len() as int;
    let mut buffer: Vec<u8> = Vec::new();
    write_markers2_content(&mut buffer, content);
    proof {
        assert(buffer@ =~= content_bytes(content.deep_view()));
    }
    let encoded = b64_encode(buffer.as_slice());
    let ghost enc = encoded@;
    let n = encoded.len();
    let mut i: usize = 0;
    while n - i > 72
        invariant
            0 <= i <= n,
            n == enc.len(),
            enc == encoded@,
            out@ + sp_chunked(enc, i as int) == old(out)@ + sp_chunked(enc, 0),
        decreases n - i,
    {
        write_slice_part(out, encoded.as_slice(), i, i + 72);
        out.push(0x0a);
        i = i + 72;
        proof {
            assert(out@ + sp_chunked(enc, i as int) =~= old(out)@ + sp_chunked(enc, 0));
        }
    }
    write_slice_part(out, encoded.as_slice(), i, n);
    proof {
        assert(out@ =~= old(out)@ + sp_chunked(enc, 0));
    }
    out.push(0);
    let ghost base = out@;
    let written = out.len();
    let mut p: usize = written;
    while p < size
        invariant
            written <= p,
            p <= size || p == written,
            p == out@.len(),
            out@ == base + sp_zeros(p as int - written as int),
        decreases size - p,
    {
        out.push(0);
        p = p + 1;
        proof {
            assert(out@ =~= base + sp_zeros(p as int - written as int));
        }
    }
    proof {
        assert(base =~= old(out)@ + (sp_chunked(enc, 0) + seq![0u8]));
        assert(written as int == head + (sp_chunked(enc, 0) + seq![0u8]).len());
        assert(out@ =~= old(out)@ + sp_enveloped_out(
            content.deep_view(),
            size as int,
            head,
        ));
    }
}

/// Serialises a raw `Serato Markers2` payload: the outer version
/// record, then the enveloped content padded to the original size.
/// Fails exactly when the tag has no outer version record.
pub fn write_markers2(markers2: &Markers2) -> (r: Result<Vec<u8>, Error>)
    requires
        content_writable(markers2.content.deep_view()),
        content_bytes(markers2.content.deep_view()).len() < usize::MAX / 8,
    ensures
        match r {
            Ok(out) => markers2.version is Some && out@ == sp_markers2_out(markers2.deep_view()),
            Err(e) => markers2.version is None && e == Error::ParseError,
        },
{
    let version = match &markers2.version {
        Some(v) => *v,
        None => {
            return Err(Error::ParseError);
        },
    };
    let mut out: Vec<u8> = Vec::new();
    write_version(&mut out, &version);
    write_enveloped(&mut out, &markers2.content, markers2.size);
    proof {
        assert(out@ =~= sp_markers2_out(markers2.deep_view()));
    }
    Ok(out)
}

impl Markers2 {
    /// Parses a raw (ID3, FLAC-decoded or MP4) payload.
    pub fn parse(input: &[u8]) -> (r: Result<Markers2, Error>)
        ensures
            match r {
                Ok(m) => {
                    &&& sp_markers2(input@) == Ok::<Markers2View, Error>(m.deep_view())
                    &&& content_wf(m.content.deep_view())
                },
                Err(e) => sp_markers2(input@) == Err::<Markers2View, Error>(e),
            },
    {
        take_markers2(input)
    }

    /// Serialises the raw payload form. Fails exactly when the tag
    /// has no outer version record.
    pub fn write(&self) -> (r: Result<Vec<u8>, Error>)
        requires
            content_writable(self.content.deep_view()),
            content_bytes(self.content.deep_view()).len() < usize::MAX / 8,
        ensures
            match r {
                Ok(out) => self.version is Some && out@ == sp_markers2_out(self.deep_view()),
                Err(e) => self.version is None && e == Error::ParseError,
            },
    {
        write_markers2(self)
    }

    /// Parses the Ogg payload form: the enveloped chunks alone, with
    /// no outer version record.
    pub fn parse_ogg(input: &[u8]) -> (r: Result<Markers2, Error>)
        ensures
            match r {
                Ok(m) => {
                    &&& sp_markers2_ogg(input@) == Ok::<Markers2View, Error>(m.deep_view())
                    &&& content_wf(m.content.deep_view())
                },
                Err(e) => sp_markers2_ogg(input@) == Err::<Markers2View, Error>(e),
            },
    {
        let decoded = match decode_enveloped(input, 0) {
            Ok(d) => d,
            Err(e) => {
                return Err(e);
            },
        };
        match parse_markers2_content(decoded.as_slice()) {
            Ok(content) => {
                let m = Markers2 { version: None, size: input.len(), content };
                proof {
                    assert(m.deep_view() =~= sp_markers2_ogg(input@)->Ok_0);
                }
                Ok(m)
            },
            Err(_) => Err(Error::ParseError),
        }
    }

    /// Serialises the Ogg payload form: the enveloped content alone,
    /// padded to the original size.
    pub fn write_ogg(&self) -> (r: Vec<u8>)
        requires
            content_writable(self.content.deep_view()),
            content_bytes(self.content.deep_view()).len() < usize::MAX / 8,
        ensures
            r@ == sp_markers2_ogg_out(self.deep_view()),
    {
        let mut out: Vec<u8> = Vec::new();
        write_enveloped(&mut out, &self.content, self.size);
        proof {
            assert(out@ =~= sp_markers2_ogg_out(self.deep_view()));
        }
        out
    }
}

// ---------------------------------------------------------------------------
// Merged accessors
// ---------------------------------------------------------------------------

/// The first `BPMLOCK` state among the markers from `i` on.
pub open spec fn sp_first_bpmlock(ms: Seq<MarkerView>, i: int) -> Option<bool>
    decreases ms.len() - i,
{
    if i < 0 || i >= ms.len() {
        None
    } else {
        match ms[i] {
            MarkerView::BPMLock(b) => Some(b.is_locked),
            _ => sp_first_bpmlock(ms, i + 1),
        }
    }
}

/// The first `COLOR` value among the markers from `i` on.
pub open spec fn sp_first_color(ms: Seq<MarkerView>, i: int) -> Option<Color>
    decreases ms.len() - i,
{
    if i < 0 || i >= ms.len() {
        None
    } else {
        match ms[i] {
            MarkerView::Color(c) => Some(c.color),
            _ => sp_first_color(ms, i + 1),
        }
    }
}

/// The cue markers from `i` on, in order.
pub open spec fn sp_cues(ms: Seq<MarkerView>, i: int) -> Seq<CueView>
    decreases ms.len() - i,
{
    if i < 0 || i >= ms.len() {
        Seq::empty()
    } else {
        match ms[i] {
            MarkerView::Cue(c) => seq![c] + sp_cues(ms, i + 1),
            _ => sp_cues(ms, i + 1),
        }
    }
}

/// The loop markers from `i` on, in order.
pub open spec fn sp_loops(ms: Seq<MarkerView>, i: int) -> Seq<LoopView>
    decreases ms.len() - i,
{
    if i < 0 || i >= ms.len() {
        Seq::empty()
    } else {
        match ms[i] {
            MarkerView::Loop(l) => seq![l] + sp_loops(ms, i + 1),
            _ => sp_loops(ms, i + 1),
        }
    }
}

/// The flip markers from `i` on, in order.
pub open spec fn sp_flips(ms: Seq<MarkerView>, i: int) -> Seq<FlipView>
    decreases ms.len() - i,
{
    if i < 0 || i >= ms.len() {
        Seq::empty()
    } else {
        match ms[i] {
            MarkerView::Flip(f) => seq![f] + sp_flips(ms, i + 1),
            _ => sp_flips(ms, i + 1),
        }
    }
}

impl Markers2 {
    /// The BPM-lock state: the first `BPMLOCK` marker's value, if any.
    #[verifier::loop_isolation(false)]
    pub fn bpm_locked(&self) -> (r: Option<bool>)
        ensures
            r == sp_first_bpmlock(self.content.markers.deep_view(), 0),
    {
        let n = self.content.markers.len();
        let mut i: usize = 0;
        while i < n
            invariant
                0 <= i <= n,
                sp_first_bpmlock(self.content.markers.deep_view(), 0) == sp_first_bpmlock(
                    self.content.markers.deep_view(),
                    i as int,
                ),
            decreases n - i,
        {
            if let Marker::BPMLock(m) = &self.content.markers[i] {
                return Some(m.is_locked);
            }
            i = i + 1;
        }
        None
    }

    /// The track colour: the first `COLOR` marker's value, if any.
    #[verifier::loop_isolation(false)]
    pub fn track_color(&self) -> (r: Option<Color>)
        ensures
            r == sp_first_color(self.content.markers.deep_view(), 0),
    {
        let n = self.content.markers.len();
        let mut i: usize = 0;
        while i < n
            invariant
                0 <= i <= n,
                sp_first_color(self.content.markers.deep_view(), 0) == sp_first_color(
                    self.content.markers.deep_view(),
                    i as int,
                ),
            decreases n - i,
        {
            if let Marker::Color(m) = &self.content.markers[i] {
                return Some(m.color);
            }
            i = i + 1;
        }
        None
    }

    /// Every cue marker, in payload order.
    #[verifier::loop_isolation(false)]
    pub fn cues(&self) -> (r: Vec<Cue>)
        ensures
            r.deep_view() == sp_cues(self.content.markers.deep_view(), 0),
    {
        let ghost ms = self.content.markers.deep_view();
        let mut cues: Vec<Cue> = Vec::new();
        let n = self.content.markers.len();
        let mut i: usize = 0;
        while i < n
            invariant
                0 <= i <= n,
                cues.deep_view() + sp_cues(ms, i as int) == sp_cues(ms, 0),
            decreases n - i,
        {
            if let Marker::Cue(m) = &self.content.markers[i] {
                let ghost prev = cues.deep_view();
                cues.push(m.clone());
                proof {
                    assert(cues.deep_view() =~= prev + seq![ms[i as int]->Cue_0]);
                    assert(prev + (seq![ms[i as int]->Cue_0] + sp_cues(ms, i as int + 1)) =~= (
                    prev + seq![ms[i as int]->Cue_0]) + sp_cues(ms, i as int + 1));
                }
            }
            i = i + 1;
        }
        proof {
            assert(cues.deep_view() + Seq::<CueView>::empty() =~= cues.deep_view());
        }
        cues
    }

    /// Every loop marker, in payload order.
    #[verifier::loop_isolation(false)]
    pub fn loops(&self) -> (r: Vec<Loop>)
        ensures
            r.deep_view() == sp_loops(self.content.markers.deep_view(), 0),
    {
        let ghost ms = self.content.markers.deep_view();
        let mut loops: Vec<Loop> = Vec::new();
        let n = self.content.markers.len();
        let mut i: usize = 0;
        while i < n
            invariant
                0 <= i <= n,
                loops.deep_view() + sp_loops(ms, i as int) == sp_loops(ms, 0),
            decreases n - i,
        {
            if let Marker::Loop(m) = &self.content.markers[i] {
                let ghost prev = loops.deep_view();
                loops.push(m.clone());
                proof {
                    assert(loops.deep_view() =~= prev + seq![ms[i as int]->Loop_0]);
                    assert(prev + (seq![ms[i as int]->Loop_0] + sp_loops(ms, i as int + 1)) =~= (
                    prev + seq![ms[i as int]->Loop_0]) + sp_loops(ms, i as int + 1));
                }
            }
            i = i + 1;
        }
        proof {
            assert(loops.deep_view() + Seq::<LoopView>::empty() =~= loops.deep_view());
        }
        loops
    }

    /// Every flip marker, in payload order.
    #[verifier::loop_isolation(false)]
    pub fn flips(&self) -> (r: Vec<Flip>)
        ensures
            r.deep_view() == sp_flips(self.content.markers.deep_view(), 0),
    {
        let ghost ms = self.content.markers.deep_view();
        let mut flips: Vec<Flip> = Vec::new();
        let n = self.content.markers.len();
        let mut i: usize = 0;
        while i < n
            invariant
                0 <= i <= n,
                flips.deep_view() + sp_flips(ms, i as int) == sp_flips(ms, 0),
            decreases n - i,
        {
            if let Marker::Flip(m) = &self.content.markers[i] {
                let ghost prev = flips.deep_view();
                flips.push(m.clone());
                proof {
                    assert(flips.deep_view() =~= prev + seq![ms[i as int]->Flip_0]);
                    assert(prev + (seq![ms[i as int]->Flip_0] + sp_flips(ms, i as int + 1)) =~= (
                    prev + seq![ms[i as int]->Flip_0]) + sp_flips(ms, i as int + 1));
                }
            }
            i = i + 1;
        }
        proof {
            assert(flips.deep_view() + Seq::<FlipView>::empty() =~= flips.deep_view());
        }
        flips
    }
}

// ---------------------------------------------------------------------------
// Round-trip laws
// ---------------------------------------------------------------------------

/// True of an action that parsing maps back to itself: an unknown
/// action must not claim the jump or censor id.
pub open spec fn action_rt(a: FlipActionView) -> bool {
    &&& action_size_ok(a)
    &&& match a {
        FlipActionView::Unknown { id, data } => id != 0 && id != 1,
        _ => true,
    }
}

/// True when every action of the flip is a jump or a censor. Only
/// then does the flip's declared size equal its body's length, as
/// Serato's size formula charges an unknown action only its data
/// length plus one.
pub open spec fn flip_actions_known(f: FlipView) -> bool {
    forall|k: int|
        0 <= k < f.actions.len() ==> ((#[trigger] f.actions[k]) is Jump || f.actions[k] is Censor)
}

/// True of a marker that parsing maps back to itself.
pub open spec fn marker_rt(m: MarkerView) -> bool {
    &&& marker_wf(m)
    &&& match m {
        MarkerView::Flip(f) => flip_actions_known(f),
        _ => true,
    }
}

/// Parsing the bytes of one action, wherever they stand, yields the
/// action back.
pub proof fn lemma_action_roundtrip(a: FlipActionView, s: Seq<u8>, i: int)
    requires
        action_rt(a),
        0 <= i,
        i + action_bytes(a).len() <= s.len(),
        s.subrange(i, i + action_bytes(a).len()) == action_bytes(a),
    ensures
        sp_take_action(s, i) == Some((a, i + action_bytes(a).len())),
{
    let ab = action_bytes(a);
    let idb: u8 = match a {
        FlipActionView::Jump(_) => 0,
        FlipActionView::Censor(_) => 1,
        FlipActionView::Unknown { id, data } => id,
    };
    let ln: u32 = match a {
        FlipActionView::Jump(_) => 16,
        FlipActionView::Censor(_) => 24,
        FlipActionView::Unknown { id, data } => data.len() as u32,
    };
    let payload = match a {
        FlipActionView::Jump(j) => be_u64_bytes(j.source_position_bits) + be_u64_bytes(
            j.target_position_bits,
        ),
        FlipActionView::Censor(c) => be_u64_bytes(c.start_position_bits) + be_u64_bytes(
            c.end_position_bits,
        ) + be_u64_bytes(c.speed_factor_bits),
        FlipActionView::Unknown { id, data } => data,
    };
    assert(ab =~= seq![idb] + be_u32_bytes(ln) + payload);
    assert(payload.len() == ln);
    assert forall|k: int| 0 <= k < ab.len() implies s[i + k] == ab[k] by {
        assert(s.subrange(i, i + ab.len() as int)[k] == s[i + k]);
    }
    assert(s[i + 0] == ab[0]);
    assert(ab[0] == idb);
    assert(s[i] == idb);
    assert(ab[1] == be_u32_bytes(ln)[0] && ab[2] == be_u32_bytes(ln)[1] && ab[3] == be_u32_bytes(
        ln,
    )[2] && ab[4] == be_u32_bytes(ln)[3]);
    lemma_be_u32_roundtrip(ln);
    assert(be_u32_of(s[i + 1], s[i + 2], s[i + 3], s[i + 4]) == ln);
    let body = s.subrange(i + 5, i + 5 + ln as int);
    assert forall|k: int| 0 <= k < ln implies body[k] == payload[k] by {
        assert(body[k] == s[i + 5 + k]);
        assert(s[i + 5 + k] == ab[5 + k]);
        assert(ab[5 + k] == payload[k]);
    }
    assert(body =~= payload);
    match a {
        FlipActionView::Jump(j) => {
            let h1 = be_u64_bytes(j.source_position_bits);
            let h2 = be_u64_bytes(j.target_position_bits);
            assert forall|k: int| 0 <= k < 8 implies body[k] == h1[k] && body[8 + k] == h2[k] by {
                assert(payload[k] == h1[k]);
                assert(payload[8 + k] == h2[k]);
            }
            lemma_be_u64_roundtrip(j.source_position_bits);
            lemma_be_u64_roundtrip(j.target_position_bits);
            assert(sp_take_action(s, i) == Some((a, i + 21)));
        },
        FlipActionView::Censor(c) => {
            let h1 = be_u64_bytes(c.start_position_bits);
            let h2 = be_u64_bytes(c.end_position_bits);
            let h3 = be_u64_bytes(c.speed_factor_bits);
            assert forall|k: int|
                0 <= k < 8 implies body[k] == h1[k] && body[8 + k] == h2[k] && body[16 + k]
                    == h3[k] by {
                assert(payload[k] == h1[k]);
                assert(payload[8 + k] == h2[k]);
                assert(payload[16 + k] == h3[k]);
            }
            lemma_be_u64_roundtrip(c.start_position_bits);
            lemma_be_u64_roundtrip(c.end_position_bits);
            lemma_be_u64_roundtrip(c.speed_factor_bits);
            assert(sp_take_action(s, i) == Some((a, i + 29)));
        },
        FlipActionView::Unknown { id, data } => {
            assert(sp_take_action(s, i) == Some((a, i + 5 + data.len() as int)));
        },
    }
}

/// When every action is a jump or a censor, the summed declared sizes
/// equal the length of the serialised actions.
pub proof fn lemma_known_actions_size(acts: Seq<FlipActionView>, k: int)
    requires
        forall|t: int|
            0 <= t < acts.len() ==> ((#[trigger] acts[t]) is Jump || acts[t] is Censor),
        0 <= k <= acts.len(),
    ensures
        actions_size(acts, k) == actions_bytes(acts, k).len(),
    decreases acts.len() - k,
{
    if k < acts.len() {
        lemma_known_actions_size(acts, k + 1);
    }
}

/// Parsing the bytes of the actions from `k` on, wherever they stand,
/// yields those actions back.
pub proof fn lemma_actions_roundtrip(acts: Seq<FlipActionView>, k: int, s: Seq<u8>, i: int)
    requires
        0 <= k <= acts.len(),
        forall|t: int| k <= t < acts.len() ==> action_rt(#[trigger] acts[t]),
        0 <= i,
        i + actions_bytes(acts, k).len() <= s.len(),
        s.subrange(i, i + actions_bytes(acts, k).len()) == actions_bytes(acts, k),
    ensures
        sp_take_actions(s, i, acts.len() - k) == Some(
            (acts.skip(k), i + actions_bytes(acts, k).len()),
        ),
    decreases acts.len() - k,
{
    if k == acts.len() {
        assert(acts.skip(k) =~= Seq::<FlipActionView>::empty());
    } else {
        let ab = action_bytes(acts[k]);
        let rest = actions_bytes(acts, k + 1);
        let whole = actions_bytes(acts, k);
        assert(whole == ab + rest);
        assert forall|t: int| 0 <= t < ab.len() implies s.subrange(i, i + ab.len() as int)[t]
            == ab[t] by {
            assert(s.subrange(i, i + whole.len() as int)[t] == s[i + t]);
            assert(whole[t] == (ab + rest)[t]);
        }
        assert(s.subrange(i, i + ab.len()) =~= ab);
        lemma_action_roundtrip(acts[k], s, i);
        assert forall|t: int|
            0 <= t < rest.len() implies s.subrange(
                i + ab.len() as int,
                i + ab.len() + rest.len() as int,
            )[t] == rest[t] by {
            assert(s.subrange(i + ab.len() as int, i + ab.len() + rest.len() as int)[t] == s[i
                + ab.len() + t]);
            assert(s.subrange(i, i + whole.len() as int)[ab.len() + t] == s[i + (ab.len() + t)]);
            assert(whole[ab.len() + t] == (ab + rest)[ab.len() + t]);
        }
        assert(s.subrange(i + ab.len(), i + ab.len() + rest.len()) =~= rest);
        lemma_actions_roundtrip(acts, k + 1, s, i + ab.len());
        assert(seq![acts[k]] + acts.skip(k + 1) =~= acts.skip(k));
        assert(sp_take_actions(s, i, acts.len() - k) == Some(
            (acts.skip(k), i + actions_bytes(acts, k).len()),
        ));
    }
}

/// Parsing the serialised body of a `BPMLOCK` marker yields it back.
pub proof fn lemma_bpmlock_body_roundtrip(b: BPMLockMarker)
    ensures
        sp_bpmlock_of(seq![bool_byte(b.is_locked)]) == Some(MarkerView::BPMLock(b)),
{
}

/// Parsing the serialised body of a `COLOR` marker yields it back.
pub proof fn lemma_color_body_roundtrip(c: TrackColorMarker)
    ensures
        sp_color_marker_of(seq![0u8] + color_bytes(c.color)) == Some(MarkerView::Color(c)),
{
    let body = seq![0u8] + color_bytes(c.color);
    assert(body.len() == 4 && body[0] == 0);
    assert(sp_color_at(body, 1) == c.color);
}

/// Parsing the serialised body of a `CUE` marker yields it back.
pub proof fn lemma_cue_body_roundtrip(c: CueView)
    requires
        cue_wf(c),
    ensures
        sp_cue_of(cue_body_bytes(c)) == Some(MarkerView::Cue(c)),
{
    let body = cue_body_bytes(c);
    assert(body.len() == 13 + c.label.len());
    assert(body[0] == 0 && body[6] == 0 && body[10] == 0 && body[11] == 0);
    assert(forall|k: int| 0 <= k < c.label.len() ==> body[12 + k] == c.label[k]);
    assert(body[body.len() - 1] == 0);
    crate::util::lemma_first_nul_at(body, 12, body.len() - 1);
    assert(body.subrange(12, body.len() - 1) =~= c.label);
    lemma_be_u32_roundtrip(c.position_millis);
    assert(be_u32_of(body[2], body[3], body[4], body[5]) == c.position_millis);
    assert(sp_color_at(body, 7) == c.color);
    assert(sp_cue_of(body) == Some(MarkerView::Cue(c)));
}

/// Parsing the serialised body of a `LOOP` marker yields it back.
pub proof fn lemma_loop_body_roundtrip(l: LoopView)
    requires
        loop_wf(l),
    ensures
        sp_loop_of(loop_body_bytes(l)) == Some(MarkerView::Loop(l)),
{
    let body = loop_body_bytes(l);
    assert(body.len() == 21 + l.label.len());
    assert(body[0] == 0 && body[10] == 0xff && body[11] == 0xff && body[12] == 0xff && body[13]
        == 0xff && body[14] == 0 && body[18] == 0);
    assert(forall|k: int| 0 <= k < l.label.len() ==> body[20 + k] == l.label[k]);
    assert(body[body.len() - 1] == 0);
    crate::util::lemma_first_nul_at(body, 20, body.len() - 1);
    assert(body.subrange(20, body.len() - 1) =~= l.label);
    lemma_be_u32_roundtrip(l.start_position_millis);
    lemma_be_u32_roundtrip(l.end_position_millis);
    assert(be_u32_of(body[2], body[3], body[4], body[5]) == l.start_position_millis);
    assert(be_u32_of(body[6], body[7], body[8], body[9]) == l.end_position_millis);
    assert(sp_color_at(body, 15) == l.color);
    assert(body[19] == bool_byte(l.is_locked));
    assert(sp_loop_of(body) == Some(MarkerView::Loop(l)));
}

/// Parsing the serialised body of a `FLIP` marker whose actions are
/// all jumps or censors yields it back.
pub proof fn lemma_flip_body_roundtrip(f: FlipView)
    requires
        flip_wf(f),
        flip_actions_known(f),
    ensures
        sp_flip_of(flip_body_bytes(f)) == Some(MarkerView::Flip(f)),
{
    let body = flip_body_bytes(f);
    let lab = f.label.len() as int;
    let jn: int = 3 + lab;
    assert(body.len() == 9 + lab + actions_bytes(f.actions, 0).len());
    assert(body[0] == 0);
    assert(forall|k: int| 0 <= k < lab ==> body[3 + k] == f.label[k]);
    assert(body[jn] == 0);
    crate::util::lemma_first_nul_at(body, 3, jn);
    assert(body.subrange(3, jn) =~= f.label);
    assert(body[jn + 1] == bool_byte(f.is_loop));
    lemma_be_u32_roundtrip(f.actions.len() as u32);
    assert(be_u32_of(body[jn + 2], body[jn + 3], body[jn + 4], body[jn + 5]) == f.actions.len()
        as u32);
    assert(body.subrange(jn + 6, jn + 6 + actions_bytes(f.actions, 0).len()) =~= actions_bytes(
        f.actions,
        0,
    ));
    assert(forall|t: int| 0 <= t < f.actions.len() ==> action_rt(#[trigger] f.actions[t]));
    lemma_actions_roundtrip(f.actions, 0, body, jn + 6);
    assert(f.actions.skip(0) =~= f.actions);
    assert(sp_flip_of(body) == Some(MarkerView::Flip(f)));
}

/// The header of a serialised marker parses apart: the name before
/// its terminator, the length field, and the body slice.
proof fn lemma_marker_header(name: Seq<u8>, body: Seq<u8>, s: Seq<u8>, i: int)
    requires
        1 <= name.len(),
        forall|k: int| 0 <= k < name.len() ==> #[trigger] name[k] != 0,
        is_utf8(name),
        body.len() <= u32::MAX,
        0 <= i,
        i + (name.len() + 5 + body.len()) <= s.len(),
        s.subrange(i, i + (name.len() + 5 + body.len())) == name + seq![0u8] + be_u32_bytes(
            body.len() as u32,
        ) + body,
    ensures
        s[i] != 0,
        sp_take_utf8(s, i) == Some((name, i + name.len() + 1)),
        be_u32_of(
            s[i + name.len() + 1],
            s[i + name.len() + 2],
            s[i + name.len() + 3],
            s[i + name.len() + 4],
        ) == body.len() as u32,
        s.subrange(i + name.len() + 5, i + name.len() + 5 + body.len()) == body,
{
    let nl = name.len() as int;
    let flat = name + seq![0u8] + be_u32_bytes(body.len() as u32) + body;
    let fl = flat.len() as int;
    assert forall|k: int| 0 <= k < fl implies s[i + k] == flat[k] by {
        assert(s.subrange(i, i + fl)[k] == s[i + k]);
    }
    assert forall|k: int| 0 <= k < nl implies s[i + k] == name[k] by {
        assert(flat[k] == name[k]);
    }
    assert(s[i + 0] == name[0]);
    assert(flat[nl] == 0);
    assert(s[i + nl] == 0);
    assert forall|t: int| i <= t < i + nl implies s[t] != 0 by {
        assert(s[i + (t - i)] == name[t - i]);
    }
    crate::util::lemma_first_nul_at(s, i, i + nl);
    assert(s.subrange(i, i + nl) =~= name);
    assert(sp_take_utf8(s, i) == Some((name, i + nl + 1)));
    let j = i + nl + 1;
    let lb = be_u32_bytes(body.len() as u32);
    lemma_be_u32_roundtrip(body.len() as u32);
    assert(flat[nl + 1] == lb[0] && flat[nl + 2] == lb[1] && flat[nl + 3] == lb[2] && flat[nl + 4]
        == lb[3]);
    assert(s[j] == lb[0] && s[j + 1] == lb[1] && s[j + 2] == lb[2] && s[j + 3] == lb[3]);
    assert(be_u32_of(s[j], s[j + 1], s[j + 2], s[j + 3]) == body.len() as u32);
    assert forall|k: int|
        0 <= k < body.len() implies s.subrange(j + 4, j + 4 + body.len())[k] == body[k] by {
        assert(s.subrange(j + 4, j + 4 + body.len() as int)[k] == s[j + 4 + k]);
        assert(s[i + (nl + 5 + k)] == flat[nl + 5 + k]);
        assert(flat[nl + 5 + k] == body[k]);
        assert(j + 4 + k == i + (nl + 5 + k));
    }
    assert(s.subrange(j + 4, j + 4 + body.len()) =~= body);
}

/// The five known marker names differ from each other.
proof fn lemma_names_distinct()
    ensures
        name_bpmlock() != name_color(),
        name_bpmlock() != name_cue(),
        name_bpmlock() != name_loop(),
        name_bpmlock() != name_flip(),
        name_color() != name_cue(),
        name_color() != name_loop(),
        name_color() != name_flip(),
        name_cue() != name_loop(),
        name_cue() != name_flip(),
        name_loop() != name_flip(),
{
    assert(name_loop()[0] == 76 && name_flip()[0] == 70);
}

/// Parsing the bytes of one marker, wherever they stand, yields the
/// marker back.
pub proof fn lemma_marker_roundtrip(m: MarkerView, s: Seq<u8>, i: int)
    requires
        marker_rt(m),
        0 <= i,
        i + marker_bytes(m).len() <= s.len(),
        s.subrange(i, i + marker_bytes(m).len()) == marker_bytes(m),
    ensures
        sp_take_marker(s, i) == Some((m, i + marker_bytes(m).len())),
{
    let mb = marker_bytes(m);
    let name = match m {
        MarkerView::Unknown(u) => u.name,
        MarkerView::BPMLock(_) => name_bpmlock(),
        MarkerView::Color(_) => name_color(),
        MarkerView::Cue(_) => name_cue(),
        MarkerView::Loop(_) => name_loop(),
        MarkerView::Flip(_) => name_flip(),
    };
    let nl = name.len() as int;
    let body = match m {
        MarkerView::Unknown(u) => u.data,
        MarkerView::BPMLock(b) => seq![bool_byte(b.is_locked)],
        MarkerView::Color(c) => seq![0u8] + color_bytes(c.color),
        MarkerView::Cue(c) => cue_body_bytes(c),
        MarkerView::Loop(l) => loop_body_bytes(l),
        MarkerView::Flip(f) => flip_body_bytes(f),
    };
    if m is Flip {
        let f = m->Flip_0;
        lemma_known_actions_size(f.actions, 0);
        assert(flip_declared_len(f) == body.len());
    }
    assert(mb =~= name + seq![0u8] + be_u32_bytes(body.len() as u32) + body);
    match m {
        MarkerView::Unknown(u) => {
            assert(forall|k: int| 0 <= k < nl ==> #[trigger] name[k] != 0);
        },
        _ => {
            assert(forall|k: int| 0 <= k < nl ==> 0 < #[trigger] name[k] <= 0x7f);
            crate::util::lemma_ascii_is_utf8(name);
        },
    }
    lemma_marker_header(name, body, s, i);
    lemma_names_distinct();
    let j = i + nl + 1;
    match m {
        MarkerView::Unknown(u) => {
            assert(name != name_bpmlock() && name != name_color() && name != name_cue() && name
                != name_loop() && name != name_flip());
            assert(sp_take_marker(s, i) == Some((m, i + mb.len())));
        },
        MarkerView::BPMLock(b) => {
            lemma_bpmlock_body_roundtrip(b);
            assert(sp_take_marker(s, i) == Some((m, i + mb.len())));
        },
        MarkerView::Color(c) => {
            lemma_color_body_roundtrip(c);
            assert(sp_take_marker(s, i) == Some((m, i + mb.len())));
        },
        MarkerView::Cue(c) => {
            lemma_cue_body_roundtrip(c);
            assert(sp_take_marker(s, i) == Some((m, i + mb.len())));
        },
        MarkerView::Loop(l) => {
            lemma_loop_body_roundtrip(l);
            assert(sp_take_marker(s, i) == Some((m, i + mb.len())));
        },
        MarkerView::Flip(f) => {
            lemma_flip_body_roundtrip(f);
            assert(sp_take_marker(s, i) == Some((m, i + mb.len())));
        },
    }
}

/// Parsing the bytes of the markers from `k` on, standing at the end
/// of the payload, yields those markers back.
pub proof fn lemma_markers_roundtrip(ms: Seq<MarkerView>, k: int, s: Seq<u8>, i: int)
    requires
        0 <= k <= ms.len(),
        forall|t: int| k <= t < ms.len() ==> marker_rt(#[trigger] ms[t]),
        0 <= i,
        i + markers_bytes(ms, k).len() == s.len(),
        s.subrange(i, s.len() as int) == markers_bytes(ms, k),
    ensures
        sp_take_markers(s, i) == Some(ms.skip(k)),
    decreases ms.len() - k,
{
    if k == ms.len() {
        assert(ms.skip(k) =~= Seq::<MarkerView>::empty());
    } else {
        let mb = marker_bytes(ms[k]);
        let rest = markers_bytes(ms, k + 1);
        let whole = markers_bytes(ms, k);
        assert(whole == mb + rest);
        assert forall|t: int| 0 <= t < mb.len() implies s.subrange(i, i + mb.len() as int)[t]
            == mb[t] by {
            assert(s.subrange(i, s.len() as int)[t] == s[i + t]);
            assert(whole[t] == (mb + rest)[t]);
        }
        assert(s.subrange(i, i + mb.len()) =~= mb);
        lemma_marker_roundtrip(ms[k], s, i);
        assert(mb.len() > 0);
        assert forall|t: int|
            0 <= t < rest.len() implies s.subrange(i + mb.len() as int, s.len() as int)[t]
                == rest[t] by {
            assert(s.subrange(i + mb.len() as int, s.len() as int)[t] == s[i + mb.len() + t]);
            assert(s.subrange(i, s.len() as int)[mb.len() + t] == s[i + (mb.len() + t)]);
            assert(whole[mb.len() + t] == (mb + rest)[mb.len() + t]);
        }
        assert(s.subrange(i + mb.len(), s.len() as int) =~= rest);
        lemma_markers_roundtrip(ms, k + 1, s, i + mb.len());
        assert(seq![ms[k]] + ms.skip(k + 1) =~= ms.skip(k));
        assert(sp_take_markers(s, i) == Some(ms.skip(k)));
    }
}

/// True of content whose markers all map back to themselves.
pub open spec fn content_rt(c: Markers2ContentView) -> bool {
    forall|k: int| 0 <= k < c.markers.len() ==> marker_rt(#[trigger] c.markers[k])
}

/// Serialising content and parsing the bytes yields the content back:
/// the inner payload round-trips for every well-formed content whose
/// flips hold only jump and censor actions.
pub proof fn lemma_content_roundtrip(c: Markers2ContentView)
    requires
        content_rt(c),
    ensures
        sp_content_of(content_bytes(c)) == Some(c),
{
    let s = content_bytes(c);
    assert(s.len() >= 2);
    assert(s[0] == c.version.major && s[1] == c.version.minor);
    assert(s.subrange(2, s.len() as int) =~= markers_bytes(c.markers, 0));
    lemma_markers_roundtrip(c.markers, 0, s, 2);
    assert(c.markers.skip(0) =~= c.markers);
    assert(sp_content_of(s) == Some(c));
}

/// Injecting a marker with an unused ASCII name and arbitrary data
/// and parsing its serialised bytes yields the marker back, so a
/// round trip through the writer is byte-identical.
pub proof fn lemma_unknown_marker_roundtrip(u: UnknownMarkerView)
    requires
        u.name.len() >= 1,
        forall|k: int| 0 <= k < u.name.len() ==> 0 < #[trigger] u.name[k] <= 0x7f,
        !is_known_name(u.name),
        u.data.len() <= u32::MAX,
    ensures
        sp_take_marker(marker_bytes(MarkerView::Unknown(u)), 0) == Some(
            (MarkerView::Unknown(u), marker_bytes(MarkerView::Unknown(u)).len() as int),
        ),
{
    crate::util::lemma_ascii_is_utf8(u.name);
    let m = MarkerView::Unknown(u);
    assert(marker_bytes(m).subrange(0, marker_bytes(m).len() as int) =~= marker_bytes(m));
    lemma_marker_roundtrip(m, marker_bytes(m), 0);
}

/// Injecting a flip action with an id other than jump or censor and
/// arbitrary payload and parsing its serialised bytes yields the
/// action back, so a round trip through the writer is byte-identical.
pub proof fn lemma_unknown_action_roundtrip(id: u8, data: Seq<u8>)
    requires
        id != 0,
        id != 1,
        data.len() <= u32::MAX,
    ensures
        sp_take_action(action_bytes(FlipActionView::Unknown { id, data }), 0) == Some(
            (
                FlipActionView::Unknown { id, data },
                action_bytes(FlipActionView::Unknown { id, data }).len() as int,
            ),
        ),
{
    let a = FlipActionView::Unknown { id, data };
    assert(action_bytes(a).subrange(0, action_bytes(a).len() as int) =~= action_bytes(a));
    lemma_action_roundtrip(a, action_bytes(a), 0);
}

} // verus!
