//! Glyph records and cluster-index assignment.
//!
//! A glyph starts life as a raw character codepoint with zeroed advances and
//! offsets; a final pass replaces the codepoint with a font-resolved glyph id
//! and fills in the horizontal advance. The cluster index ties each glyph back
//! to a position of the original buffer and must always stay inside
//! `[0, original_len)`: once the output outgrows the original buffer, every
//! further glyph is clamped onto the last valid position.

use vstd::prelude::*;

verus! {

/// One shaped output unit: a codepoint (raw character before resolution, font
/// glyph id after), a cluster back-reference, advances, offsets and flags.
#[derive(Clone, Copy, PartialEq, Eq, Structural, Debug)]
pub struct Glyph {
    pub codepoint: u32,
    pub cluster: u32,
    pub x_advance: i32,
    pub y_advance: i32,
    pub x_offset: i32,
    pub y_offset: i32,
    pub flags: u32,
}

/// A freshly emitted glyph: raw character, given cluster, everything else zero.
pub open spec fn pre_glyph(c: char, cluster: int) -> Glyph {
    Glyph {
        codepoint: c as u32,
        cluster: cluster as u32,
        x_advance: 0,
        y_advance: 0,
        x_offset: 0,
        y_offset: 0,
        flags: 0,
    }
}

/// The cluster assigned to the glyph at running position `pos`: sequential
/// while positions of the original buffer remain, then clamped to the last one.
pub open spec fn clamped_cluster(pos: int, original_len: int) -> int {
    if pos < original_len {
        pos
    } else {
        original_len - 1
    }
}

/// The glyph sequence emitted for one unit output, the cluster counter
/// starting at `start`: one glyph per character, clusters sequential while
/// positions of the original buffer remain, then clamped.
pub open spec fn emitted_glyphs(text: Seq<char>, start: int, original_len: int) -> Seq<Glyph> {
    Seq::new(text.len(), |j: int| pre_glyph(text[j], clamped_cluster(start + j, original_len)))
}

/// The cluster counter after emitting `count` glyphs from `start`: it
/// advances one position per glyph and saturates at `original_len`.
pub open spec fn advanced_counter(start: int, count: int, original_len: int) -> int {
    if start + count <= original_len {
        start + count
    } else {
        original_len
    }
}

/// Glyphs for a purely numeric buffer: one per character, codepoint unchanged,
/// cluster equal to the character position.
pub fn numeric_glyphs(s: &str) -> (r: Vec<Glyph>)
    requires
        s@.len() <= u32::MAX,
    ensures
        r@.len() == s@.len(),
        forall|i: int| 0 <= i < r@.len() ==> r@[i] == pre_glyph(s@[i], i),
{
    let n = s.unicode_len();
    let mut r: Vec<Glyph> = Vec::new();
    let mut i: usize = 0;
    while i < n
        invariant
            i <= n == s@.len() <= u32::MAX,
            r@.len() == i,
            forall|j: int| 0 <= j < i ==> r@[j] == pre_glyph(s@[j], j),
        decreases n - i,
    {
        let c = s.get_char(i);
        r.push(
            Glyph {
                codepoint: c as u32,
                cluster: i as u32,
                x_advance: 0,
                y_advance: 0,
                x_offset: 0,
                y_offset: 0,
                flags: 0,
            },
        );
        i = i + 1;
    }
    r
}

/// Appends one glyph per character of `s`, assigning sequential cluster
/// indices from `*cluster_idx` and clamping once `original_len` is reached.
pub fn append_unit_glyphs(out: &mut Vec<Glyph>, s: &str, cluster_idx: &mut usize, original_len: usize)
    requires
        1 <= original_len <= u32::MAX,
        *old(cluster_idx) <= original_len,
    ensures
        final(out)@.len() == old(out)@.len() + s@.len(),
        forall|i: int| 0 <= i < old(out)@.len() ==> final(out)@[i] == old(out)@[i],
        forall|j: int|
            0 <= j < s@.len() ==> final(out)@[old(out)@.len() + j] == pre_glyph(
                s@[j],
                clamped_cluster(*old(cluster_idx) + j, original_len as int),
            ),
        final(out)@ == old(out)@ + emitted_glyphs(
            s@,
            *old(cluster_idx) as int,
            original_len as int,
        ),
        *final(cluster_idx) == advanced_counter(
            *old(cluster_idx) as int,
            s@.len() as int,
            original_len as int,
        ),
{
    let n = s.unicode_len();
    let mut j: usize = 0;
    while j < n
        invariant
            j <= n == s@.len(),
            1 <= original_len <= u32::MAX,
            *cluster_idx <= original_len,
            *cluster_idx == if *old(cluster_idx) + j <= original_len {
                *old(cluster_idx) + j
            } else {
                original_len as int
            },
            out@.len() == old(out)@.len() + j,
            forall|i: int| 0 <= i < old(out)@.len() ==> out@[i] == old(out)@[i],
            forall|i: int|
                0 <= i < j ==> out@[old(out)@.len() + i] == pre_glyph(
                    s@[i],
                    clamped_cluster(*old(cluster_idx) + i, original_len as int),
                ),
        decreases n - j,
    {
        let c = s.get_char(j);
        let cl: usize = if *cluster_idx < original_len {
            let v = *cluster_idx;
            *cluster_idx = *cluster_idx + 1;
            v
        } else {
            original_len - 1
        };
        out.push(
            Glyph {
                codepoint: c as u32,
                cluster: cl as u32,
                x_advance: 0,
                y_advance: 0,
                x_offset: 0,
                y_offset: 0,
                flags: 0,
            },
        );
        j = j + 1;
    }
    proof {
        assert(out@ =~= old(out)@ + emitted_glyphs(
            s@,
            *old(cluster_idx) as int,
            original_len as int,
        ));
    }
}

/// The final-pass rewrite of one glyph: the codepoint becomes the
/// font-resolved glyph id and the horizontal advance is filled in; cluster,
/// vertical advance, offsets and flags are untouched.
pub fn resolved_glyph(g: &Glyph, glyph_id: u32, advance: i32) -> (r: Glyph)
    ensures
        r.codepoint == glyph_id,
        r.x_advance == advance,
        r.cluster == g.cluster,
        r.y_advance == g.y_advance,
        r.x_offset == g.x_offset,
        r.y_offset == g.y_offset,
        r.flags == g.flags,
{
    Glyph {
        codepoint: glyph_id,
        cluster: g.cluster,
        x_advance: advance,
        y_advance: g.y_advance,
        x_offset: g.x_offset,
        y_offset: g.y_offset,
        flags: g.flags,
    }
}

} // verus!
