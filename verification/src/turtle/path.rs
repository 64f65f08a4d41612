//! The path a turtle records: points, colours, and the entries that string them
//! into polylines.
use vstd::prelude::*;

use super::geometry::LineGeometry;

verus! {

/// One step of the recorded path: a jump (pen lifted) to a point, or a line drawn
/// to it, in a recorded colour
#[derive(Debug, Clone, Copy)]
pub struct PathEntry {
    pub jump: bool,
    pub path_idx: usize,
    pub colour_idx: usize,
}

/// Points and colours visited by a turtle, and the entries that refer to them
pub struct TurtlePath<V> {
    path_buf: Vec<V>,
    colour_buf: Vec<V>,
    path_entries: Vec<PathEntry>,
}

/// What building the line geometry has gathered after the entries before `n` (the
/// first entry, where the path starts, excluded): vertices, their colours, finished
/// segments, the first vertex and length of the open segment, and the point the next
/// line starts from
pub open spec fn line_fold<V>(
    path: Seq<V>,
    colours: Seq<V>,
    entries: Seq<PathEntry>,
    n: int,
) -> (Seq<V>, Seq<V>, Seq<(u32, u32)>, nat, nat, int)
    decreases n,
{
    if n <= 1 {
        (Seq::empty(), Seq::empty(), Seq::empty(), 0, 0, 0)
    } else {
        let prev = line_fold(path, colours, entries, n - 1);
        let e = entries[n - 1];
        let (v, c, segs, st, ln, last) = prev;
        if e.jump {
            if ln > 0 {
                (v, c, segs.push((st as u32, ln as u32)), v.len(), 0, e.path_idx as int)
            } else {
                (v, c, segs, st, 0, e.path_idx as int)
            }
        } else if ln == 0 {
            (
                v.push(path[last]).push(path[e.path_idx as int]),
                c.push(colours[e.colour_idx as int]).push(colours[e.colour_idx as int]),
                segs,
                st,
                2,
                e.path_idx as int,
            )
        } else {
            (
                v.push(path[e.path_idx as int]),
                c.push(colours[e.colour_idx as int]),
                segs,
                st,
                ln + 1,
                e.path_idx as int,
            )
        }
    }
}

/// The vertices of the line geometry only grow as more entries are folded in
proof fn lemma_line_fold_grows<V>(path: Seq<V>, colours: Seq<V>, entries: Seq<PathEntry>, i: int, j: int)
    requires
        i <= j,
    ensures
        line_fold(path, colours, entries, i).0.len() <= line_fold(path, colours, entries, j).0.len(),
    decreases j - i,
{
    if i < j {
        lemma_line_fold_grows(path, colours, entries, i, j - 1);
    }
}

/// The segments of the line geometry of the whole path: the finished ones and the
/// open one, if it has any vertex
pub open spec fn line_segments<V>(path: Seq<V>, colours: Seq<V>, entries: Seq<PathEntry>) -> Seq<(u32, u32)> {
    let f = line_fold(path, colours, entries, entries.len() as int);
    if f.4 > 0 {
        f.2.push((f.3 as u32, f.4 as u32))
    } else {
        f.2
    }
}

/// `0, 1, …, n - 1`
pub open spec fn identity_indices(n: nat) -> Seq<u32> {
    Seq::new(n, |i: int| i as u32)
}

/// Consecutive segments of at least two indices that together cover the first `n`
/// indices exactly
pub open spec fn segments_tile(segs: Seq<(u32, u32)>, n: nat) -> bool
    decreases segs.len(),
{
    if segs.len() == 0 {
        n == 0
    } else {
        &&& segs.last().1 >= 2
        &&& segs.last().0 + segs.last().1 == n
        &&& segments_tile(segs.drop_last(), segs.last().0 as nat)
    }
}

impl<V: Copy> TurtlePath<V> {
    /// The recorded points
    pub closed spec fn points(&self) -> Seq<V> {
        self.path_buf@
    }

    /// The recorded colours
    pub closed spec fn colour_seq(&self) -> Seq<V> {
        self.colour_buf@
    }

    /// The recorded entries
    pub closed spec fn entries(&self) -> Seq<PathEntry> {
        self.path_entries@
    }

    /// Every entry names a recorded point and a recorded colour, and the path has
    /// started
    pub open spec fn wf(&self) -> bool {
        &&& self.entries().len() >= 1
        &&& self.colour_seq().len() >= 1
        &&& self.points().len() >= 1
        &&& forall|i: int| 0 <= i < self.entries().len() ==> {
            &&& (#[trigger] self.entries()[i]).path_idx < self.points().len()
            &&& self.entries()[i].colour_idx < self.colour_seq().len()
        }
    }

    /// A path starting at `pos` in `colour`
    pub fn new(pos: V, colour: V) -> (p: Self)
        ensures
            p.wf(),
            p.points() == seq![pos],
            p.colour_seq() == seq![colour],
            p.entries() == seq![PathEntry { jump: true, path_idx: 0, colour_idx: 0 }],
    {
        let mut p = TurtlePath { path_buf: Vec::new(), colour_buf: Vec::new(), path_entries: Vec::new() };
        p.start_path(pos, colour);
        p
    }

    /// Seeds the path buffers with the starting position and colour
    fn start_path(&mut self, pos: V, colour: V)
        requires
            old(self).points().len() == 0,
            old(self).colour_seq().len() == 0,
            old(self).entries().len() == 0,
        ensures
            final(self).wf(),
            final(self).points() == seq![pos],
            final(self).colour_seq() == seq![colour],
            final(self).entries() == seq![PathEntry { jump: true, path_idx: 0, colour_idx: 0 }],
    {
        self.path_buf.push(pos);
        self.colour_buf.push(colour);
        self.path_entries.push(PathEntry { jump: true, path_idx: 0, colour_idx: 0 });
        assert(self.path_buf@ =~= seq![pos]);
        assert(self.colour_buf@ =~= seq![colour]);
        assert(self.path_entries@ =~= seq![PathEntry { jump: true, path_idx: 0, colour_idx: 0 }]);
    }

    /// Forgets the path and starts a new one at `pos` in `colour`
    pub fn reset(&mut self, pos: V, colour: V)
        ensures
            final(self).wf(),
            final(self).points() == seq![pos],
            final(self).colour_seq() == seq![colour],
            final(self).entries() == seq![PathEntry { jump: true, path_idx: 0, colour_idx: 0 }],
    {
        self.path_buf.clear();
        self.colour_buf.clear();
        self.path_entries.clear();
        self.start_path(pos, colour);
    }

    /// The current position: the point of the last entry
    pub fn pos(&self) -> (p: V)
        requires
            self.wf(),
        ensures
            p == self.points()[self.entries().last().path_idx as int],
    {
        let last = self.path_entries[self.path_entries.len() - 1];
        assert(last == self.entries()[self.entries().len() - 1]);
        self.path_buf[last.path_idx]
    }

    /// The current colour: the last one recorded
    pub fn colour(&self) -> (c: V)
        requires
            self.wf(),
        ensures
            c == self.colour_seq().last(),
    {
        self.colour_buf[self.colour_buf.len() - 1]
    }

    /// Index of the last entry: where a branch that starts now leaves the path
    pub fn last_entry(&self) -> (i: usize)
        requires
            self.wf(),
        ensures
            i == self.entries().len() - 1,
    {
        self.path_entries.len() - 1
    }

    /// Number of entries
    pub fn entry_count(&self) -> (n: usize)
        ensures
            n == self.entries().len(),
    {
        self.path_entries.len()
    }

    /// Draws a line from the current position to `to`, in the current colour
    pub fn line_to(&mut self, to: V)
        requires
            old(self).wf(),
        ensures
            final(self).wf(),
            final(self).points() == old(self).points().push(to),
            final(self).colour_seq() == old(self).colour_seq(),
            final(self).entries() == old(self).entries().push(
                PathEntry {
                    jump: false,
                    path_idx: old(self).points().len() as usize,
                    colour_idx: (old(self).colour_seq().len() - 1) as usize,
                },
            ),
            final(self).points()[final(self).entries().last().path_idx as int] == to,
    {
        let entry = PathEntry {
            jump: false,
            path_idx: self.path_buf.len(),
            colour_idx: self.colour_buf.len() - 1,
        };
        self.path_buf.push(to);
        self.path_entries.push(entry);
        assert forall|i: int| 0 <= i < self.entries().len() implies {
            &&& (#[trigger] self.entries()[i]).path_idx < self.points().len()
            &&& self.entries()[i].colour_idx < self.colour_seq().len()
        } by {
            if i < self.entries().len() - 1 {
                assert(self.entries()[i] == old(self).entries()[i]);
            }
        }
    }

    /// Records `colour` as the current colour
    pub fn set_colour(&mut self, colour: V)
        requires
            old(self).wf(),
        ensures
            final(self).wf(),
            final(self).points() == old(self).points(),
            final(self).colour_seq() == old(self).colour_seq().push(colour),
            final(self).entries() == old(self).entries(),
    {
        self.colour_buf.push(colour);
        assert forall|i: int| 0 <= i < self.entries().len() implies {
            &&& (#[trigger] self.entries()[i]).path_idx < self.points().len()
            &&& self.entries()[i].colour_idx < self.colour_seq().len()
        } by {
            assert(self.entries()[i] == old(self).entries()[i]);
        }
    }

    /// Jumps back to where entry `entry_idx` left the path, with its colour
    pub fn jump_back(&mut self, entry_idx: usize)
        requires
            old(self).wf(),
            entry_idx < old(self).entries().len(),
        ensures
            final(self).wf(),
            final(self).points() == old(self).points(),
            final(self).colour_seq() == old(self).colour_seq(),
            final(self).entries() == old(self).entries().push(
                PathEntry {
                    jump: true,
                    path_idx: old(self).entries()[entry_idx as int].path_idx,
                    colour_idx: old(self).entries()[entry_idx as int].colour_idx,
                },
            ),
            final(self).points()[final(self).entries().last().path_idx as int] == old(self).points()[old(
                self,
            ).entries()[entry_idx as int].path_idx as int],
    {
        let prev = self.path_entries[entry_idx];
        self.path_entries.push(PathEntry { jump: true, path_idx: prev.path_idx, colour_idx: prev.colour_idx });
        assert forall|i: int| 0 <= i < self.entries().len() implies {
            &&& (#[trigger] self.entries()[i]).path_idx < self.points().len()
            &&& self.entries()[i].colour_idx < self.colour_seq().len()
        } by {
            if i < self.entries().len() - 1 {
                assert(self.entries()[i] == old(self).entries()[i]);
            } else {
                assert(old(self).entries()[entry_idx as int].path_idx < self.points().len());
            }
        }
    }

    /// The number of vertices `line_geometry` emits
    pub open spec fn line_vertex_count(&self) -> nat {
        line_fold(self.points(), self.colour_seq(), self.entries(), self.entries().len() as int).0.len()
    }

    /// Whether the line geometry's vertices can be numbered by `u32` indices
    pub fn line_vertices_fit(&self) -> (ok: bool)
        requires
            self.wf(),
        ensures
            ok == (self.line_vertex_count() <= u32::MAX),
    {
        let ghost path = self.points();
        let ghost cols = self.colour_seq();
        let ghost entries = self.entries();
        let n = self.path_entries.len();
        let mut count: u64 = 0;
        let mut open = false;
        let mut i: usize = 1;
        while i < n
            invariant
                path == self.points(),
                cols == self.colour_seq(),
                entries == self.entries(),
                n == entries.len(),
                1 <= i <= n,
                count == line_fold(path, cols, entries, i as int).0.len(),
                open == (line_fold(path, cols, entries, i as int).4 > 0),
                count <= u32::MAX,
            decreases n - i,
        {
            let entry = self.path_entries[i];
            assert(entry == entries[i as int]);
            if entry.jump {
                open = false;
            } else if !open {
                count = count + 2;
                open = true;
            } else {
                count = count + 1;
            }
            i = i + 1;
            if count > 0xffff_ffff {
                proof {
                    lemma_line_fold_grows(path, cols, entries, i as int, n as int);
                }
                return false;
            }
        }
        true
    }

    /// Extract line geometry data: one polyline per run of lines drawn between jumps,
    /// each starting at the point the run leaves from; indices number the vertices in
    /// order
    pub fn line_geometry(&self) -> (g: LineGeometry<V>)
        requires
            self.wf(),
            self.line_vertex_count() <= u32::MAX,
        ensures
            ({
                let f = line_fold(self.points(), self.colour_seq(), self.entries(), self.entries().len() as int);
                g.vertices@ == f.0 && g.colours@ == f.1
            }),
            g.colours@.len() == g.vertices@.len(),
            g.indices@ == identity_indices(g.vertices@.len()),
            g.segments@ == line_segments(self.points(), self.colour_seq(), self.entries()),
            segments_tile(g.segments@, g.indices@.len()),
    {
        let ghost path = self.points();
        let ghost cols = self.colour_seq();
        let ghost entries = self.entries();
        let mut vertices: Vec<V> = Vec::new();
        let mut colours: Vec<V> = Vec::new();
        let mut indices: Vec<u32> = Vec::new();
        let mut segments: Vec<(u32, u32)> = Vec::new();

        let mut vertex_count: u32 = 0;
        let mut segment_start: u32 = 0;
        let mut segment_length: u32 = 0;
        let mut last_path_idx: usize = 0;

        let n = self.path_entries.len();
        let mut i: usize = 1;
        while i < n
            invariant
                self.wf(),
                path == self.points(),
                cols == self.colour_seq(),
                entries == self.entries(),
                n == entries.len(),
                line_fold(path, cols, entries, n as int).0.len() <= u32::MAX,
                1 <= i <= n,
                ({
                    let f = line_fold(path, cols, entries, i as int);
                    &&& vertices@ == f.0
                    &&& colours@ == f.1
                    &&& segments@ == f.2
                    &&& segment_start == f.3
                    &&& segment_length == f.4
                    &&& last_path_idx == f.5
                }),
                vertices@.len() <= 2 * (i - 1),
                colours@.len() == vertices@.len(),
                vertex_count == vertices@.len(),
                indices@ == identity_indices(vertices@.len()),
                last_path_idx < path.len(),
                segments_tile(segments@, segment_start as nat),
                segment_start + segment_length == vertices@.len(),
                segment_length != 1,
            decreases n - i,
        {
            let entry = self.path_entries[i];
            assert(entry == entries[i as int]);
            proof {
                lemma_line_fold_grows(path, cols, entries, i + 1, n as int);
            }
            if entry.jump {
                if segment_length > 0 {
                    segments.push((segment_start, segment_length));
                    proof {
                        assert(segments@.drop_last() =~= line_fold(path, cols, entries, i as int).2);
                    }
                    segment_start = indices.len() as u32;
                    segment_length = 0;
                }
                last_path_idx = entry.path_idx;
            } else {
                if segment_length == 0 {
                    vertices.push(self.path_buf[last_path_idx]);
                    colours.push(self.colour_buf[entry.colour_idx]);
                    indices.push(vertex_count);
                    vertex_count = vertex_count + 1;
                    segment_length = segment_length + 1;
                }
                vertices.push(self.path_buf[entry.path_idx]);
                colours.push(self.colour_buf[entry.colour_idx]);
                indices.push(vertex_count);
                vertex_count = vertex_count + 1;
                segment_length = segment_length + 1;
                last_path_idx = entry.path_idx;
                proof {
                    assert(indices@ =~= identity_indices(vertices@.len()));
                }
            }
            i = i + 1;
        }

        if segment_length > 0 {
            segments.push((segment_start, segment_length));
            proof {
                assert(segments@.drop_last() =~= line_fold(path, cols, entries, n as int).2);
            }
        }

        LineGeometry { vertices, colours, indices, segments }
    }

}

} // verus!
