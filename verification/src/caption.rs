//! Caption events and the two ways to build them: from an alignment match
//! (with an explicit below-threshold policy) and from the script itself,
//! line by line, for timer-driven playback.

use vstd::prelude::*;

use crate::align::Candidate;
use crate::script::ScriptContainer;
use crate::similarity::Score;

verus! {

/// Where on the screen a caption stands, as CSS-style coordinates.
#[derive(Debug)]
pub struct Position {
    pub x: String,
    pub y: String,
}

#[verifier::ext_equal]
pub ghost struct PositionView {
    pub x: Seq<char>,
    pub y: Seq<char>,
}

impl View for Position {
    type V = PositionView;

    open spec fn view(&self) -> PositionView {
        PositionView { x: self.x@, y: self.y@ }
    }
}

impl Clone for Position {
    fn clone(&self) -> (r: Self)
        ensures
            r@ == self@,
    {
        Position { x: self.x.clone(), y: self.y.clone() }
    }
}

/// How a caption is rendered.
#[derive(Debug)]
pub struct Style {
    pub color: String,
    pub font_size: String,
    pub font_family: String,
    pub position: Position,
}

#[verifier::ext_equal]
pub ghost struct StyleView {
    pub color: Seq<char>,
    pub font_size: Seq<char>,
    pub font_family: Seq<char>,
    pub position: PositionView,
}

impl View for Style {
    type V = StyleView;

    open spec fn view(&self) -> StyleView {
        StyleView {
            color: self.color@,
            font_size: self.font_size@,
            font_family: self.font_family@,
            position: self.position@,
        }
    }
}

impl Clone for Style {
    fn clone(&self) -> (r: Self)
        ensures
            r@ == self@,
    {
        Style {
            color: self.color.clone(),
            font_size: self.font_size.clone(),
            font_family: self.font_family.clone(),
            position: self.position.clone(),
        }
    }
}

#[derive(Debug, Clone, Copy, PartialEq, Eq, Structural)]
pub enum MediaKind {
    Image,
    Video,
}

/// An optional media reference shown with a caption.
#[derive(Debug)]
pub struct Media {
    pub kind: MediaKind,
    pub url: String,
    pub duration_ms: Option<u64>,
}

#[verifier::ext_equal]
pub ghost struct MediaView {
    pub kind: MediaKind,
    pub url: Seq<char>,
    pub duration_ms: Option<u64>,
}

impl View for Media {
    type V = MediaView;

    open spec fn view(&self) -> MediaView {
        MediaView { kind: self.kind, url: self.url@, duration_ms: self.duration_ms }
    }
}

impl Clone for Media {
    fn clone(&self) -> (r: Self)
        ensures
            r@ == self@,
    {
        Media {
            kind: self.kind,
            url: self.url.clone(),
            duration_ms: match &self.duration_ms {
                Some(d) => Some(*d),
                None => None,
            },
        }
    }
}

/// The fully resolved, renderable unit delivered to viewers. Immutable
/// once built; subscribers each receive their own copy.
#[derive(Debug)]
pub struct CaptionEvent {
    pub text: String,
    pub speaker: Option<String>,
    pub style: Style,
    pub media: Option<Media>,
}

#[verifier::ext_equal]
pub ghost struct CaptionEventView {
    pub text: Seq<char>,
    pub speaker: Option<Seq<char>>,
    pub style: StyleView,
    pub media: Option<MediaView>,
}

impl View for CaptionEvent {
    type V = CaptionEventView;

    open spec fn view(&self) -> CaptionEventView {
        CaptionEventView {
            text: self.text@,
            speaker: match self.speaker {
                Some(s) => Some(s@),
                None => None,
            },
            style: self.style@,
            media: match self.media {
                Some(m) => Some(m@),
                None => None,
            },
        }
    }
}

impl Clone for CaptionEvent {
    fn clone(&self) -> (r: Self)
        ensures
            r@ == self@,
    {
        CaptionEvent {
            text: self.text.clone(),
            speaker: match &self.speaker {
                Some(s) => Some(s.clone()),
                None => None,
            },
            style: self.style.clone(),
            media: match &self.media {
                Some(m) => Some(m.clone()),
                None => None,
            },
        }
    }
}

/// What the builder does with a match whose score falls below the
/// acceptance threshold: emit nothing, hold the previous caption, or emit
/// a caller-supplied low-confidence marker.
#[derive(Debug)]
pub enum ThresholdPolicy {
    Suppress,
    HoldPrevious,
    EmitMarker(CaptionEvent),
}

/// The event built for line `m` of `corpus` under `style`: the line's text,
/// its speaker, the given style, no media.
pub open spec fn event_for_line(
    corpus: Seq<crate::script::ScriptLineView>,
    m: int,
    style: StyleView,
) -> CaptionEventView {
    CaptionEventView {
        text: corpus[m].text,
        speaker: Some(corpus[m].name),
        style: style,
        media: None,
    }
}

fn make_line_event(corpus: &ScriptContainer, m: usize, style: &Style) -> (r: CaptionEvent)
    requires
        m < corpus@.len(),
    ensures
        r@ == event_for_line(corpus@, m as int, style@),
{
    let line = corpus.line_at(m);
    CaptionEvent {
        text: line.get_text().to_owned(),
        speaker: Some(line.get_name().to_owned()),
        style: style.clone(),
        media: None,
    }
}

/// Alignment-driven construction: given the aligner's ranked candidates,
/// build the caption for the best match when its score reaches `threshold`;
/// below the threshold, do what `policy` says. An empty candidate list
/// (empty corpus) yields no event.
pub fn build_from_alignment(
    corpus: &ScriptContainer,
    candidates: &Vec<Candidate>,
    threshold: &Score,
    policy: &ThresholdPolicy,
    previous: &Option<CaptionEvent>,
    style: &Style,
) -> (r: Option<CaptionEvent>)
    requires
        candidates@.len() > 0 ==> candidates@[0].index < corpus@.len(),
    ensures
        candidates@.len() == 0 ==> r is None,
        candidates@.len() > 0 && candidates@[0].score.spec_ge(*threshold) ==> (r matches Some(ev)
            && ev@ == event_for_line(corpus@, candidates@[0].index as int, style@)),
        candidates@.len() > 0 && !candidates@[0].score.spec_ge(*threshold) ==> match policy {
            ThresholdPolicy::Suppress => r is None,
            ThresholdPolicy::HoldPrevious => match (r, previous) {
                (Some(ev), Some(p)) => ev@ == p@,
                (None, None) => true,
                _ => false,
            },
            ThresholdPolicy::EmitMarker(mk) => (r matches Some(ev) && ev@ == mk@),
        },
{
    if candidates.len() == 0 {
        return None;
    }
    let top = candidates[0];
    if top.score.ge(threshold) {
        Some(make_line_event(corpus, top.index, style))
    } else {
        match policy {
            ThresholdPolicy::Suppress => None,
            ThresholdPolicy::HoldPrevious => match previous {
                Some(p) => Some(p.clone()),
                None => None,
            },
            ThresholdPolicy::EmitMarker(mk) => Some(mk.clone()),
        }
    }
}

/// Timer-driven construction: the caption for script position `position`,
/// or nothing once the script is exhausted. Emits no event on an empty
/// corpus.
pub fn timed_event(corpus: &ScriptContainer, position: usize, style: &Style) -> (r: Option<
    CaptionEvent,
>)
    ensures
        position < corpus@.len() <==> r is Some,
        r matches Some(ev) ==> ev@ == event_for_line(corpus@, position as int, style@),
{
    if position < corpus.len() {
        Some(make_line_event(corpus, position, style))
    } else {
        None
    }
}

/// How long to hold `event` on screen: the duration its media carries, or
/// `default_ms` when there is no media or the media names no duration.
pub fn display_duration_ms(event: &CaptionEvent, default_ms: u64) -> (r: u64)
    ensures
        r == match event@.media {
            Some(m) => match m.duration_ms {
                Some(d) => d,
                None => default_ms,
            },
            None => default_ms,
        },
{
    match &event.media {
        Some(m) => match m.duration_ms {
            Some(d) => d,
            None => default_ms,
        },
        None => default_ms,
    }
}

} // verus!
