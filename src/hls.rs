use vstd::prelude::*;

verus! {

/// Which segments of a freshly polled media playlist still need fetching.
#[derive(Debug)]
pub struct SegmentPlan {
    /// Indices into the playlist's segments, in playlist order.
    pub fresh: Vec<usize>,
    /// Media sequence number of the last segment fetched once these are
    /// (`None` while nothing has been fetched).
    pub last_segment: Option<u64>,
    /// Segments were missed between the previous poll and this one.
    pub skipped: bool,
}

/// Index of the first segment whose sequence number lies past `previous`;
/// before any fetch, every segment is new.
pub open spec fn first_fresh(media_sequence: u64, count: usize, previous: Option<u64>) -> int {
    match previous {
        None => 0,
        Some(p) => if p < media_sequence {
            0
        } else if p - media_sequence + 1 < count {
            p - media_sequence + 1
        } else {
            count as int
        },
    }
}

/// Compares a playlist whose first segment has sequence number
/// `media_sequence` and which lists `count` segments against the last
/// sequence number fetched, `previous_last_segment` (`None` before any).
/// Each segment is fetched once: the plan holds exactly those numbered past
/// the last one fetched, and every listed segment before any fetch.
pub fn plan_segments(media_sequence: u64, count: usize, previous_last_segment: Option<u64>) -> (r: SegmentPlan)
    requires
        media_sequence + count <= u64::MAX,
    ensures
        r.fresh@.len() == count - first_fresh(media_sequence, count, previous_last_segment),
        forall|k: int| 0 <= k < r.fresh@.len() ==> r.fresh@[k] == first_fresh(media_sequence, count, previous_last_segment) + k,
        r.last_segment == if r.fresh@.len() > 0 { Some((media_sequence + count - 1) as u64) } else { previous_last_segment },
        r.skipped == (r.fresh@.len() > 0 && (previous_last_segment matches Some(p) && media_sequence > p + 1)),
{
    let mut fresh: Vec<usize> = Vec::new();
    let mut last = previous_last_segment;
    let mut skipped = false;
    let mut i: usize = 0;
    let ghost start = first_fresh(media_sequence, count, previous_last_segment);
    while i < count
        invariant
            i <= count,
            media_sequence + count <= u64::MAX,
            start == first_fresh(media_sequence, count, previous_last_segment),
            i <= start ==> fresh@.len() == 0 && last == previous_last_segment && !skipped,
            i > start ==> fresh@.len() == i - start && last == Some((media_sequence + i - 1) as u64)
                && skipped == (previous_last_segment matches Some(p) && media_sequence > p + 1),
            forall|k: int| 0 <= k < fresh@.len() ==> fresh@[k] == start + k,
        decreases count - i,
    {
        let seq = media_sequence + i as u64;
        let is_new = match last {
            None => true,
            Some(p) => seq > p,
        };
        if is_new {
            if let Some(p) = last {
                if seq > p + 1 {
                    skipped = true;
                }
            }
            fresh.push(i);
            last = Some(seq);
        }
        i = i + 1;
    }
    SegmentPlan { fresh, last_segment: last, skipped }
}

} // verus!
