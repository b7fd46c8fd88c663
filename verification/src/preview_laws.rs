//! What holds of every preview container.

use crate::lrprev::{
    cut_segments, first_occurrence, image_end_of, image_start_of, is_first_occurrence,
    lemma_first_occurrence_is, lemma_first_occurrence_none, lemma_locate_levels_in_order,
    level_marker, levels_in_order, levels_of, locate_levels_from, occurs_at, occurs_nowhere,
    segments_of, LevelView, MARKER_LEN, MAX_LEVELS,
};
use vstd::prelude::*;

verus! {

/// A container without the marker of level 1 holds no image.
pub proof fn lemma_no_marker_no_segments(data: Seq<u8>)
    requires
        occurs_nowhere(data, level_marker(1)),
    ensures
        levels_of(data) == Seq::<LevelView>::empty(),
        segments_of(data) == Seq::<Seq<u8>>::empty(),
{
    assert(data.subrange(0, data.len() as int) =~= data);
    lemma_first_occurrence_none(data, level_marker(1));
    assert(segments_of(data) =~= Seq::<Seq<u8>>::empty());
}

/// The bytes of a container from level `level` on: for each payload the
/// marker of its level, the delimiter and the payload itself.
pub open spec fn levels_text(level: int, delimiter: u8, payloads: Seq<Seq<u8>>) -> Seq<u8>
    decreases payloads.len(),
{
    if payloads.len() == 0 {
        Seq::empty()
    } else {
        level_marker(level) + seq![delimiter] + payloads[0] + levels_text(
            level + 1,
            delimiter,
            payloads.drop_first(),
        )
    }
}

/// The container that holds `payloads` as the images of the levels 1, 2, ...
/// behind the bytes `prefix`, each marker followed by `delimiter`.
pub open spec fn build_container(prefix: Seq<u8>, delimiter: u8, payloads: Seq<Seq<u8>>) -> Seq<u8> {
    prefix + levels_text(1, delimiter, payloads)
}

/// The marker of `level` does not begin in `text`, where `text` is
/// followed by that marker.
pub open spec fn no_early_marker(text: Seq<u8>, level: int) -> bool {
    forall|j: int| 0 <= j < text.len() ==> !occurs_at(text + level_marker(level), level_marker(level), j)
}

/// No payload, and not the prefix, brings forward the marker that follows
/// it; and the last payload does not hold the marker of a further level.
pub open spec fn markers_where_meant(prefix: Seq<u8>, payloads: Seq<Seq<u8>>) -> bool {
    &&& payloads.len() > 0 ==> no_early_marker(prefix, 1)
    &&& payloads.len() == 0 ==> occurs_nowhere(prefix, level_marker(1))
    &&& forall|i: int| 0 <= i < payloads.len() - 1 ==> no_early_marker(#[trigger] payloads[i], i + 2)
    &&& 0 < payloads.len() < MAX_LEVELS ==> occurs_nowhere(
        payloads.last(),
        level_marker(payloads.len() as int + 1),
    )
}

/// What follows `head` in the bytes of `data` from `from` on.
proof fn lemma_behind_head(data: Seq<u8>, from: int, head: Seq<u8>, rest: Seq<u8>)
    requires
        0 <= from <= data.len(),
        data.subrange(from, data.len() as int) == head + rest,
    ensures
        from + head.len() + rest.len() == data.len(),
        data.subrange(from + head.len(), data.len() as int) == rest,
        data.subrange(from, from + head.len()) == head,
{
    let tail = data.subrange(from, data.len() as int);
    assert(tail.len() == head.len() + rest.len());
    assert forall|k: int| 0 <= k < rest.len() implies data[from + head.len() + k] == rest[k] by {
        assert(tail[head.len() + k] == rest[k]);
    }
    assert(data.subrange(from + head.len(), data.len() as int) =~= rest);
    assert forall|k: int| 0 <= k < head.len() implies data[from + k] == head[k] by {
        assert(tail[k] == head[k]);
    }
    assert(data.subrange(from, from + head.len()) =~= head);
}

/// The marker of `level` is met first behind `gap`, where `gap` does not
/// bring it forward.
proof fn lemma_marker_behind_gap(tail: Seq<u8>, gap: Seq<u8>, level: int, more: Seq<u8>)
    requires
        tail == gap + level_marker(level) + more,
        no_early_marker(gap, level),
    ensures
        is_first_occurrence(tail, level_marker(level), gap.len() as int),
{
    let marker = level_marker(level);
    let at = gap.len() as int;
    let joined = gap + marker;
    assert(tail.subrange(at, at + marker.len()) =~= marker);
    assert forall|j: int| 0 <= j < at implies !occurs_at(tail, marker, j) by {
        if occurs_at(tail, marker, j) {
            assert(joined.subrange(j, j + marker.len()) =~= tail.subrange(j, j + marker.len()));
            assert(occurs_at(joined, marker, j));
        }
    }
}

/// The level whose marker begins at `marker_start` and whose image begins
/// at `image_start`.
pub open spec fn level_at(marker_start: int, image_start: int) -> LevelView {
    LevelView { marker_start, image_start }
}

/// Where the marker of `level` is met first, the scan finds the level
/// there and goes on behind it.
proof fn lemma_locate_unfold(data: Seq<u8>, level: int, from: int, found: int)
    requires
        1 <= level <= MAX_LEVELS,
        0 <= from <= data.len(),
        is_first_occurrence(data.subrange(from, data.len() as int), level_marker(level), found),
    ensures
        locate_levels_from(data, level, from) == seq![
            level_at(from + found, image_start_of(data, from + found)),
        ] + locate_levels_from(data, level + 1, image_start_of(data, from + found)),
{
    lemma_first_occurrence_is(data.subrange(from, data.len() as int), level_marker(level), found);
}

/// Where the bytes of a level lie that is written behind `gap` in the
/// bytes of `data` from `from` on.
proof fn lemma_level_bytes(
    data: Seq<u8>,
    from: int,
    gap: Seq<u8>,
    marker: Seq<u8>,
    delimiter: u8,
    first: Seq<u8>,
    behind: Seq<u8>,
)
    requires
        0 <= from <= data.len(),
        data.subrange(from, data.len() as int) == gap + (marker + seq![delimiter] + first + behind),
    ensures
        data.subrange(from, data.len() as int) == gap + marker + (seq![delimiter] + first + behind),
        from + gap.len() + marker.len() + 1 + first.len() + behind.len() == data.len(),
        data.subrange(from + gap.len() + marker.len() + 1, data.len() as int) == first + behind,
        data.subrange(
            from + gap.len() + marker.len() + 1,
            from + gap.len() + marker.len() + 1 + first.len(),
        ) == first,
{
    let head = gap + marker + seq![delimiter];
    assert(gap + (marker + seq![delimiter] + first + behind) =~= head + (first + behind));
    assert(gap + (marker + seq![delimiter] + first + behind) =~= gap + marker + (seq![delimiter]
        + first + behind));
    lemma_behind_head(data, from, head, first + behind);
    lemma_behind_head(data, from + head.len(), first, behind);
}

/// A marker is seven bytes long.
proof fn lemma_marker_len(level: int)
    ensures
        level_marker(level).len() == MARKER_LEN,
{
}

/// The first level of what was built from payloads lies behind the gap,
/// and the scan goes on behind its delimiter.
proof fn lemma_scan_built_step(
    data: Seq<u8>,
    level: int,
    from: int,
    gap: Seq<u8>,
    delimiter: u8,
    first: Seq<u8>,
    behind: Seq<u8>,
)
    requires
        1 <= level <= MAX_LEVELS,
        0 <= from <= data.len(),
        data.subrange(from, data.len() as int) == gap + (level_marker(level) + seq![delimiter]
            + first + behind),
        no_early_marker(gap, level),
    ensures
        from + gap.len() + MARKER_LEN + 1 + first.len() + behind.len() == data.len(),
        locate_levels_from(data, level, from) == seq![
            level_at(from + gap.len(), from + gap.len() + MARKER_LEN + 1),
        ] + locate_levels_from(data, level + 1, from + gap.len() + MARKER_LEN + 1),
        data.subrange(from + gap.len() + MARKER_LEN + 1, data.len() as int) == first + behind,
        data.subrange(
            from + gap.len() + MARKER_LEN + 1,
            from + gap.len() + MARKER_LEN + 1 + first.len(),
        ) == first,
{
    let tail = data.subrange(from, data.len() as int);
    lemma_marker_len(level);
    lemma_level_bytes(data, from, gap, level_marker(level), delimiter, first, behind);
    lemma_marker_behind_gap(tail, gap, level, seq![delimiter] + first + behind);
    lemma_locate_unfold(data, level, from, gap.len() as int);
}

/// The images of a list of levels, where the images of all but its first
/// level are known.
proof fn lemma_cut_first(
    data: Seq<u8>,
    level: LevelView,
    further: Seq<LevelView>,
    first: Seq<u8>,
    rest: Seq<Seq<u8>>,
)
    requires
        cut_segments(data, further) == rest,
        further.len() > 0 ==> data.subrange(level.image_start, further[0].marker_start) == first,
        further.len() == 0 ==> data.subrange(level.image_start, data.len() as int) == first,
    ensures
        cut_segments(data, seq![level] + further) == seq![first] + rest,
{
    let levels = seq![level] + further;
    let images = seq![first] + rest;
    assert(cut_segments(data, levels).len() == images.len());
    assert forall|i: int| 0 <= i < levels.len() implies #[trigger] cut_segments(data, levels)[i]
        == images[i] by {
        if i == 0 {
            if further.len() > 0 {
                assert(levels[1] == further[0]);
            }
        } else {
            assert(levels[i] == further[i - 1]);
            if i + 1 < levels.len() {
                assert(levels[i + 1] == further[i]);
            }
            assert(image_end_of(data, levels, i) == image_end_of(data, further, i - 1));
            assert(cut_segments(data, further)[i - 1] == rest[i - 1]);
        }
    }
    assert(cut_segments(data, levels) =~= images);
}

/// The scan of a container that was built from payloads finds each payload.
proof fn lemma_scan_built(
    data: Seq<u8>,
    level: int,
    from: int,
    gap: Seq<u8>,
    delimiter: u8,
    payloads: Seq<Seq<u8>>,
)
    requires
        1 <= level,
        level + payloads.len() <= MAX_LEVELS + 1,
        0 <= from <= data.len(),
        data.subrange(from, data.len() as int) == gap + levels_text(level, delimiter, payloads),
        payloads.len() > 0 ==> no_early_marker(gap, level),
        payloads.len() == 0 && level <= MAX_LEVELS ==> occurs_nowhere(gap, level_marker(level)),
        forall|i: int|
            0 <= i < payloads.len() - 1 ==> no_early_marker(#[trigger] payloads[i], level + 1 + i),
        payloads.len() > 0 && level + payloads.len() <= MAX_LEVELS ==> occurs_nowhere(
            payloads.last(),
            level_marker(level + payloads.len()),
        ),
    ensures
        locate_levels_from(data, level, from).len() == payloads.len(),
        payloads.len() > 0 ==> locate_levels_from(data, level, from)[0].marker_start == from
            + gap.len(),
        cut_segments(data, locate_levels_from(data, level, from)) == payloads,
    decreases payloads.len(),
{
    let levels = locate_levels_from(data, level, from);
    if payloads.len() == 0 {
        assert(data.subrange(from, data.len() as int) =~= gap);
        if level <= MAX_LEVELS {
            lemma_first_occurrence_none(gap, level_marker(level));
        }
        assert(cut_segments(data, levels) =~= payloads);
    } else {
        let first = payloads[0];
        let rest = payloads.drop_first();
        let behind = levels_text(level + 1, delimiter, rest);
        let image_start = from + gap.len() + MARKER_LEN + 1;
        lemma_scan_built_step(data, level, from, gap, delimiter, first, behind);
        assert forall|i: int| 0 <= i < rest.len() - 1 implies no_early_marker(
            #[trigger] rest[i],
            level + 2 + i,
        ) by {
            assert(rest[i] == payloads[i + 1]);
        }
        if rest.len() > 0 {
            assert(rest.last() == payloads.last());
        }
        lemma_scan_built(data, level + 1, image_start, first, delimiter, rest);
        let further = locate_levels_from(data, level + 1, image_start);
        let entry = LevelView { marker_start: from + gap.len(), image_start };
        lemma_cut_first(data, entry, further, first, rest);
        assert(seq![first] + rest =~= payloads);
    }
}

/// A container that is built from at most nine payloads, each behind the
/// marker of its level and one delimiter byte, gives back the payloads,
/// byte for byte and lowest level first. This holds where each marker is
/// met first at the place where it was put: where neither the prefix nor a
/// payload brings a marker forward.
pub proof fn lemma_round_trip(prefix: Seq<u8>, delimiter: u8, payloads: Seq<Seq<u8>>)
    requires
        payloads.len() <= MAX_LEVELS,
        markers_where_meant(prefix, payloads),
    ensures
        segments_of(build_container(prefix, delimiter, payloads)) == payloads,
        levels_of(build_container(prefix, delimiter, payloads)).len() == payloads.len(),
{
    let data = build_container(prefix, delimiter, payloads);
    assert(data.subrange(0, data.len() as int) =~= data);
    assert forall|i: int| 0 <= i < payloads.len() - 1 implies no_early_marker(
        #[trigger] payloads[i],
        1 + 1 + i,
    ) by {
        assert(no_early_marker(payloads[i], i + 2));
    }
    lemma_scan_built(data, 1, 0, prefix, delimiter, payloads);
}

/// The levels that lie before a cut through the marker of a later level
/// are found in the container that ends at the cut.
proof fn lemma_scan_truncated(data: Seq<u8>, cut: int, level: int, from: int, through: int)
    requires
        0 <= through < locate_levels_from(data, level, from).len(),
        locate_levels_from(data, level, from)[through].marker_start <= cut
            < locate_levels_from(data, level, from)[through].marker_start + MARKER_LEN,
        0 <= cut <= data.len(),
    ensures
        locate_levels_from(data.take(cut), level, from) == locate_levels_from(
            data,
            level,
            from,
        ).take(through),
    decreases MAX_LEVELS + 1 - level,
{
    let levels = locate_levels_from(data, level, from);
    let short = data.take(cut);
    let marker = level_marker(level);
    let tail = data.subrange(from, data.len() as int);
    lemma_locate_levels_in_order(data, level, from);
    let found = first_occurrence(tail, marker)->0;
    assert(is_first_occurrence(tail, marker, found));
    let marker_start = from + found;
    let image_start = image_start_of(data, marker_start);
    let rest = locate_levels_from(data, level + 1, image_start);
    assert(levels =~= seq![LevelView { marker_start, image_start }] + rest);
    if through == 0 {
        let short_tail = short.subrange(from, short.len() as int);
        assert forall|j: int| !occurs_at(short_tail, marker, j) by {
            if occurs_at(short_tail, marker, j) {
                assert(tail.subrange(j, j + marker.len()) =~= short_tail.subrange(
                    j,
                    j + marker.len(),
                ));
                assert(occurs_at(tail, marker, j));
            }
        }
        lemma_first_occurrence_none(short_tail, marker);
        assert(levels.take(0) =~= Seq::<LevelView>::empty());
    } else {
        lemma_locate_levels_in_order(data, level + 1, image_start);
        assert(levels[through] == rest[through - 1]);
        lemma_starts_behind(data, level + 1, image_start, through - 1);
        assert(image_start <= cut);
        if image_start != marker_start + MARKER_LEN + 1 {
            let end = data.subrange(image_start, data.len() as int);
            let next = first_occurrence(end, level_marker(level + 1))->0;
            assert(is_first_occurrence(end, level_marker(level + 1), next));
        }
        let short_tail = short.subrange(from, short.len() as int);
        assert(short_tail.subrange(found, found + marker.len()) =~= tail.subrange(
            found,
            found + marker.len(),
        ));
        assert forall|j: int| 0 <= j < found implies !occurs_at(short_tail, marker, j) by {
            if occurs_at(short_tail, marker, j) {
                assert(tail.subrange(j, j + marker.len()) =~= short_tail.subrange(
                    j,
                    j + marker.len(),
                ));
                assert(occurs_at(tail, marker, j));
            }
        }
        assert(is_first_occurrence(short_tail, marker, found));
        lemma_first_occurrence_is(short_tail, marker, found);
        assert(image_start_of(short, marker_start) == image_start);
        lemma_scan_truncated(data, cut, level + 1, image_start, through - 1);
        assert(levels.take(through) =~= seq![LevelView { marker_start, image_start }] + rest.take(
            through - 1,
        ));
    }
}

/// Every level found from an offset on begins at or behind that offset.
proof fn lemma_starts_behind(data: Seq<u8>, level: int, from: int, at: int)
    requires
        0 <= at < locate_levels_from(data, level, from).len(),
    ensures
        from <= locate_levels_from(data, level, from)[at].marker_start,
    decreases at,
{
    let levels = locate_levels_from(data, level, from);
    lemma_locate_levels_in_order(data, level, from);
    if at > 0 {
        let tail = data.subrange(from, data.len() as int);
        let found = first_occurrence(tail, level_marker(level))->0;
        let marker_start = from + found;
        let image_start = image_start_of(data, marker_start);
        let rest = locate_levels_from(data, level + 1, image_start);
        assert(levels =~= seq![LevelView { marker_start, image_start }] + rest);
        assert(levels[at] == rest[at - 1]);
        lemma_starts_behind(data, level + 1, image_start, at - 1);
        assert(levels[0].marker_start <= levels[0].image_start);
    }
}

/// A container that is cut off inside the marker of one of its levels
/// still gives the levels before that one, each where it was. The images
/// of all but the last of them are what they were, and the last runs to
/// the cut.
pub proof fn lemma_truncated_mid_marker(data: Seq<u8>, cut: int, through: int)
    requires
        0 <= through < levels_of(data).len(),
        levels_of(data)[through].marker_start <= cut < levels_of(data)[through].marker_start
            + MARKER_LEN,
        cut <= data.len(),
    ensures
        levels_of(data.take(cut)) == levels_of(data).take(through),
        segments_of(data.take(cut)).len() == through,
        forall|i: int|
            0 <= i < through - 1 ==> #[trigger] segments_of(data.take(cut))[i] == segments_of(
                data,
            )[i],
        through > 0 ==> segments_of(data.take(cut))[through - 1] == data.subrange(
            levels_of(data)[through - 1].image_start,
            cut,
        ),
{
    let levels = levels_of(data);
    let short = data.take(cut);
    lemma_locate_levels_in_order(data, 1, 0);
    lemma_scan_truncated(data, cut, 1, 0, through);
    let kept = levels_of(short);
    assert forall|i: int| 0 <= i < through - 1 implies #[trigger] segments_of(short)[i]
        == segments_of(data)[i] by {
        assert(kept[i] == levels[i]);
        assert(kept[i + 1] == levels[i + 1]);
        lemma_in_order_chain(data, levels, i + 1, through);
        assert(short.subrange(levels[i].image_start, levels[i + 1].marker_start)
            =~= data.subrange(levels[i].image_start, levels[i + 1].marker_start));
    }
    if through > 0 {
        assert(kept[through - 1] == levels[through - 1]);
        assert(levels[through - 1].image_start <= levels[through].marker_start);
        assert(short.subrange(levels[through - 1].image_start, cut) =~= data.subrange(
            levels[through - 1].image_start,
            cut,
        ));
    }
}

/// Of levels that lie one behind the other, an earlier one begins no later
/// than a later one.
proof fn lemma_in_order_chain(data: Seq<u8>, levels: Seq<LevelView>, low: int, high: int)
    requires
        levels_in_order(data, levels),
        0 <= low <= high < levels.len(),
    ensures
        levels[low].marker_start <= levels[high].marker_start,
    decreases high - low,
{
    if low < high {
        lemma_in_order_chain(data, levels, low + 1, high);
        assert(levels[low].image_start <= levels[low + 1].marker_start);
    }
}

} // verus!
