//! Decisions of the header-driven parser's frame loop: the initial frames
//! to skip, the frame limit, the counting of frames and the handling of
//! undecodable items.

use crate::blackbox::ParsingStats;
use vstd::prelude::*;

verus! {

/// One item handed out by the log decoder.
#[derive(Debug, Clone, Copy, PartialEq, Eq, Structural)]
pub enum StreamItem {
    /// A main frame
    MainFrame,
    /// A slow frame
    SlowFrame,
    /// An event
    Event,
    /// A GPS frame
    Gps,
    /// An item the decoder could not decode
    Corrupt,
}

/// What the loop does with the item.
#[derive(Debug, Clone, Copy, PartialEq, Eq, Structural)]
pub enum StreamStep {
    /// Extract the main frame's telemetry
    ExtractMain,
    /// Nothing to extract
    Continue,
    /// The frame limit was reached: stop without using the item
    Stop,
    /// Strict parsing and an undecodable item: fail
    Fail,
}

/// State of the frame loop.
#[derive(Debug, Clone, Copy, PartialEq, Eq, Structural)]
pub struct FrameStream {
    /// Frame limit from the configuration
    pub max_frames: Option<u64>,
    /// Items still to be skipped before the loop starts counting
    pub skip_remaining: u64,
    /// Whether an undecodable item fails the parse
    pub strict: bool,
    /// Frames (main and slow) processed so far
    pub frame_count: u64,
    /// Parser statistics
    pub stats: ParsingStats,
}

/// Whether the frame limit is reached.
pub open spec fn limit_reached(s: FrameStream) -> bool {
    s.max_frames matches Some(m) && s.frame_count >= m
}

/// The step and next state for an item.
pub open spec fn stream_step(s: FrameStream, item: StreamItem) -> (FrameStream, StreamStep) {
    if s.skip_remaining > 0 {
        (FrameStream { skip_remaining: (s.skip_remaining - 1) as u64, ..s }, StreamStep::Continue)
    } else if limit_reached(s) {
        (s, StreamStep::Stop)
    } else {
        match item {
            StreamItem::MainFrame => (
                FrameStream {
                    frame_count: (s.frame_count + 1) as u64,
                    stats: ParsingStats {
                        total_frames: (s.stats.total_frames + 1) as u64,
                        ..s.stats
                    },
                    ..s
                },
                StreamStep::ExtractMain,
            ),
            StreamItem::SlowFrame => (
                FrameStream {
                    frame_count: (s.frame_count + 1) as u64,
                    stats: ParsingStats {
                        total_frames: (s.stats.total_frames + 1) as u64,
                        ..s.stats
                    },
                    ..s
                },
                StreamStep::Continue,
            ),
            StreamItem::Event => (
                FrameStream {
                    stats: ParsingStats { event_frames: (s.stats.event_frames + 1) as u64, ..s.stats },
                    ..s
                },
                StreamStep::Continue,
            ),
            StreamItem::Gps => (
                FrameStream {
                    stats: ParsingStats { gps_frames: (s.stats.gps_frames + 1) as u64, ..s.stats },
                    ..s
                },
                StreamStep::Continue,
            ),
            StreamItem::Corrupt => if s.strict {
                (s, StreamStep::Fail)
            } else {
                (
                    FrameStream {
                        stats: ParsingStats {
                            corrupted_frames: (s.stats.corrupted_frames + 1) as u64,
                            ..s.stats
                        },
                        ..s
                    },
                    StreamStep::Continue,
                )
            },
        }
    }
}

impl FrameStream {
    /// A loop before its first item, which will first skip `skip_frames`
    /// items unread.
    pub fn new(max_frames: Option<u64>, skip_frames: u64, strict: bool, stats: ParsingStats) -> (res:
        Self)
        ensures
            res == (FrameStream {
                max_frames,
                skip_remaining: skip_frames,
                strict,
                frame_count: 0,
                stats,
            }),
    {
        FrameStream { max_frames, skip_remaining: skip_frames, strict, frame_count: 0, stats }
    }

    /// No counter the next item advances is at its limit.
    pub open spec fn can_count(&self) -> bool {
        &&& self.frame_count < u64::MAX
        &&& self.stats.total_frames < u64::MAX
        &&& self.stats.event_frames < u64::MAX
        &&& self.stats.gps_frames < u64::MAX
        &&& self.stats.corrupted_frames < u64::MAX
    }

    /// Whether the counters can take one more item.
    pub fn has_room(&self) -> (res: bool)
        ensures
            res == self.can_count(),
    {
        self.frame_count < u64::MAX && self.stats.total_frames < u64::MAX
            && self.stats.event_frames < u64::MAX && self.stats.gps_frames < u64::MAX
            && self.stats.corrupted_frames < u64::MAX
    }

    /// Account for one decoded item: while initial items remain to be
    /// skipped the item is dropped uncounted; then, once the frame limit is
    /// reached every item stops the loop; a frame is counted (a main frame
    /// is extracted);
    /// an event or GPS frame is counted in the statistics; an undecodable
    /// item fails a strict parse and is counted as corrupted otherwise.
    pub fn on_item(&mut self, item: StreamItem) -> (res: StreamStep)
        requires
            old(self).can_count(),
        ensures
            (*final(self), res) == stream_step(*old(self), item),
    {
        if self.skip_remaining > 0 {
            self.skip_remaining = self.skip_remaining - 1;
            return StreamStep::Continue;
        }
        if let Some(m) = self.max_frames {
            if self.frame_count >= m {
                return StreamStep::Stop;
            }
        }
        match item {
            StreamItem::MainFrame => {
                self.frame_count = self.frame_count + 1;
                self.stats.total_frames = self.stats.total_frames + 1;
                StreamStep::ExtractMain
            },
            StreamItem::SlowFrame => {
                self.frame_count = self.frame_count + 1;
                self.stats.total_frames = self.stats.total_frames + 1;
                StreamStep::Continue
            },
            StreamItem::Event => {
                self.stats.event_frames = self.stats.event_frames + 1;
                StreamStep::Continue
            },
            StreamItem::Gps => {
                self.stats.gps_frames = self.stats.gps_frames + 1;
                StreamStep::Continue
            },
            StreamItem::Corrupt => {
                if self.strict {
                    StreamStep::Fail
                } else {
                    self.stats.corrupted_frames = self.stats.corrupted_frames + 1;
                    StreamStep::Continue
                }
            },
        }
    }
}

/// What one item does: while items remain to be skipped it is dropped
/// with nothing counted; otherwise, below the limit, a main frame is
/// extracted and counted as a frame, a slow frame counted as a frame, an
/// event or GPS frame counted in its own statistic only, and an
/// undecodable item fails a strict loop (changing nothing) and is counted
/// as corrupted otherwise.
pub proof fn lemma_item_effects(s: FrameStream, item: StreamItem)
    requires
        s.can_count(),
    ensures
        ({
            let (n, step) = stream_step(s, item);
            &&& s.skip_remaining > 0 ==> step == StreamStep::Continue && n.skip_remaining
                == s.skip_remaining - 1 && n.frame_count == s.frame_count && n.stats == s.stats
            &&& (s.skip_remaining == 0 && !limit_reached(s)) ==> match item {
                StreamItem::MainFrame => step == StreamStep::ExtractMain && n.frame_count
                    == s.frame_count + 1 && n.stats.total_frames == s.stats.total_frames + 1
                    && n.stats.event_frames == s.stats.event_frames,
                StreamItem::SlowFrame => step == StreamStep::Continue && n.frame_count
                    == s.frame_count + 1 && n.stats.total_frames == s.stats.total_frames + 1,
                StreamItem::Event => step == StreamStep::Continue && n.frame_count == s.frame_count
                    && n.stats.event_frames == s.stats.event_frames + 1 && n.stats.total_frames
                    == s.stats.total_frames,
                StreamItem::Gps => step == StreamStep::Continue && n.frame_count == s.frame_count
                    && n.stats.gps_frames == s.stats.gps_frames + 1 && n.stats.total_frames
                    == s.stats.total_frames,
                StreamItem::Corrupt => if s.strict {
                    step == StreamStep::Fail && n == s
                } else {
                    step == StreamStep::Continue && n.frame_count == s.frame_count
                        && n.stats.corrupted_frames == s.stats.corrupted_frames + 1
                },
            }
        }),
{
}

/// Once the initial items are skipped and the limit is reached the loop
/// stops on the next item and the state no longer changes; the frame count
/// never passes the limit.
pub proof fn lemma_limit_is_final(s: FrameStream, item: StreamItem)
    requires
        s.max_frames matches Some(m) ==> s.frame_count <= m,
    ensures
        s.skip_remaining == 0 && limit_reached(s) ==> stream_step(s, item) == (s, StreamStep::Stop),
        stream_step(s, item).0.max_frames matches Some(m) ==> stream_step(s, item).0.frame_count
            <= m,
{
}

} // verus!
