//! The Monster's 3D model file (monster.lvm): "LVM1", then the vertex, triangle and joint counts, the vertices
//! (position, skin uv, ball uv: little-endian f32s; 4 joint indices and 4 weights: bytes), the triangles (3
//! little-endian u32s each), and the moves (a name, a frame count, a frame rate and, per frame and joint, a 3x4
//! matrix). The numbers stored as f32 are handed out as their bits: turning them into floats is the renderer's.
use vstd::prelude::*;
use crate::num::rd_u32;

verus! {

/// The little-endian u32 at byte o.
pub open spec fn le32(b: Seq<u8>, o: int) -> int {
    b[o] + 256 * b[o + 1] + 65536 * b[o + 2] + 16777216 * b[o + 3]
}

/// The file starts with "LVM1" and has room for the three counts.
pub open spec fn lvm_header(b: Seq<u8>) -> bool {
    b.len() >= 16 && b[0] == 76 && b[1] == 86 && b[2] == 77 && b[3] == 49
}

/// Where the moves start: after the header, the vertices (36 bytes each) and the triangles (12 bytes each).
pub open spec fn moves_at(b: Seq<u8>) -> int {
    16 + 36 * le32(b, 4) + 12 * le32(b, 8)
}

/// The size of the move starting at byte o: its name's length byte, its name, its frame count and rate, and 12
/// numbers per frame and joint.
pub open spec fn move_size(b: Seq<u8>, o: int) -> int {
    let l = b[o] as int;
    1 + l + 8 + 4 * (le32(b, o + 1 + l) * le32(b, 12) * 12)
}

/// Where move k starts.
pub open spec fn move_at(b: Seq<u8>, k: nat) -> int
    decreases k,
{
    if k == 0 {
        moves_at(b) + 4
    } else {
        move_at(b, (k - 1) as nat) + move_size(b, move_at(b, (k - 1) as nat))
    }
}

/// Every part the counts announce is there (a shorter file is not one the game reads).
pub open spec fn lvm_complete(b: Seq<u8>) -> bool {
    &&& moves_at(b) + 4 <= b.len()
    &&& forall|k: nat| k < le32(b, moves_at(b)) ==> #[trigger] move_at(b, k) < b.len() && move_at(b, k) + 9 + b[move_at(b, k)]
        <= b.len() && move_at(b, k) + move_size(b, move_at(b, k)) <= b.len()
}

/// A vertex as stored: its position and two uvs as f32 bits, its joints and weights as bytes.
#[derive(Clone, Copy, Debug)]
pub struct LvmVertex {
    pub pos: (u32, u32, u32),
    pub uv: (u32, u32),
    pub ball_uv: (u32, u32),
    pub joints: (u8, u8, u8, u8),
    pub weights: (u8, u8, u8, u8),
}

/// A move as stored: its name's bytes, its frame count, its frame rate (f32 bits) and its matrices (f32 bits,
/// 12 per frame and joint).
pub struct LvmMove {
    pub name: Vec<u8>,
    pub frames: u32,
    pub fps: u32,
    pub data: Vec<u32>,
}

/// The model file's contents. `moves` holds every move in the file's order; when two share a name, the later one
/// is the one the game plays (see `find_move`).
pub struct Lvm {
    pub vertices: Vec<LvmVertex>,
    pub tris: Vec<(u32, u32, u32)>,
    pub joints: u32,
    pub moves: Vec<LvmMove>,
}

/// Vertex i as stored at byte o.
pub open spec fn vertex_at(b: Seq<u8>, o: int) -> LvmVertex {
    LvmVertex {
        pos: (le32(b, o) as u32, le32(b, o + 4) as u32, le32(b, o + 8) as u32),
        uv: (le32(b, o + 12) as u32, le32(b, o + 16) as u32),
        ball_uv: (le32(b, o + 20) as u32, le32(b, o + 24) as u32),
        joints: (b[o + 28], b[o + 29], b[o + 30], b[o + 31]),
        weights: (b[o + 32], b[o + 33], b[o + 34], b[o + 35]),
    }
}

/// Move k read as it is stored: its name, frame count, frame rate and numbers.
pub open spec fn move_read(b: Seq<u8>, k: nat, m: LvmMove) -> bool {
    let o = move_at(b, k);
    let l = b[o] as int;
    &&& m.name@ == b.subrange(o + 1, o + 1 + l)
    &&& m.frames == le32(b, o + 1 + l)
    &&& m.fps == le32(b, o + 5 + l)
    &&& m.data@.len() == le32(b, o + 1 + l) * le32(b, 12) * 12
    &&& forall|j: int| 0 <= j < m.data@.len() ==> #[trigger] m.data@[j] == le32(b, o + 9 + l + 4 * j)
}

/// The file read as it is stored.
pub open spec fn lvm_read(b: Seq<u8>, m: Lvm) -> bool {
    &&& m.vertices@.len() == le32(b, 4)
    &&& forall|i: int| 0 <= i < m.vertices@.len() ==> #[trigger] m.vertices@[i] == vertex_at(b, 16 + 36 * i)
    &&& m.tris@.len() == le32(b, 8)
    &&& forall|i: int| 0 <= i < m.tris@.len() ==> #[trigger] m.tris@[i] == (
        le32(b, 16 + 36 * le32(b, 4) + 12 * i) as u32,
        le32(b, 16 + 36 * le32(b, 4) + 12 * i + 4) as u32,
        le32(b, 16 + 36 * le32(b, 4) + 12 * i + 8) as u32,
    )
    &&& m.joints == le32(b, 12)
    &&& m.moves@.len() == le32(b, moves_at(b))
    &&& forall|k: int| 0 <= k < m.moves@.len() ==> move_read(b, k as nat, #[trigger] m.moves@[k])
}

fn read_word(b: &[u8], o: &mut usize) -> (v: u32)
    requires
        *old(o) + 4 <= b@.len(),
    ensures
        *final(o) == *old(o) + 4,
        v == le32(b@, *old(o) as int),
{
    rd_u32(b, o)
}

fn read_vertex(b: &[u8], o: &mut usize) -> (v: LvmVertex)
    requires
        *old(o) + 36 <= b@.len(),
    ensures
        *final(o) == *old(o) + 36,
        v == vertex_at(b@, *old(o) as int),
{
    let p0 = read_word(b, o);
    let p1 = read_word(b, o);
    let p2 = read_word(b, o);
    let u0 = read_word(b, o);
    let u1 = read_word(b, o);
    let b0 = read_word(b, o);
    let b1 = read_word(b, o);
    let i = *o;
    let v = LvmVertex {
        pos: (p0, p1, p2),
        uv: (u0, u1),
        ball_uv: (b0, b1),
        joints: (b[i], b[i + 1], b[i + 2], b[i + 3]),
        weights: (b[i + 4], b[i + 5], b[i + 6], b[i + 7]),
    };
    *o = i + 8;
    v
}

fn read_move(b: &[u8], o: &mut usize, Ghost(k): Ghost<nat>) -> (m: LvmMove)
    requires
        *old(o) == move_at(b@, k),
        *old(o) < b@.len(),
        *old(o) + 9 + b@[*old(o) as int] <= b@.len(),
        move_at(b@, k) + move_size(b@, move_at(b@, k)) <= b@.len(),
        16 <= b@.len(),
    ensures
        *final(o) == move_at(b@, k + 1),
        move_read(b@, k, m),
{
    let start = *o;
    let l = b[start] as usize;
    let name = slice_to_vec(b, start + 1, start + 1 + l);
    let mut p = start + 1 + l;
    let frames = read_word(b, &mut p);
    let fps = read_word(b, &mut p);
    let mut q: usize = 12;
    let nb = read_word(b, &mut q);
    proof {
        let f = frames as int;
        let j = nb as int;
        assert(4 * (f * j * 12) <= b@.len());
        assert(f * j * 12 <= usize::MAX) by (nonlinear_arith)
            requires
                4 * (f * j * 12) <= b@.len(),
                b@.len() <= usize::MAX,
                f >= 0,
                j >= 0,
        ;
        assert(f * j <= f * j * 12) by (nonlinear_arith)
            requires
                f >= 0,
                j >= 0,
        ;
    }
    let n = (frames as usize) * (nb as usize) * 12;
    let mut data: Vec<u32> = Vec::new();
    let mut c: usize = 0;
    while c < n
        invariant
            c <= n,
            n == frames * nb * 12,
            p == start + 9 + l + 4 * c,
            start + 9 + l + 4 * n <= b@.len(),
            data@.len() == c,
            forall|j: int| 0 <= j < c ==> #[trigger] data@[j] == le32(b@, start + 9 + l + 4 * j),
        decreases n - c,
    {
        let w = read_word(b, &mut p);
        data.push(w);
        c = c + 1;
    }
    *o = p;
    LvmMove { name, frames, fps, data }
}

fn slice_to_vec(b: &[u8], from: usize, to: usize) -> (v: Vec<u8>)
    requires
        from <= to <= b@.len(),
    ensures
        v@ == b@.subrange(from as int, to as int),
{
    let mut v: Vec<u8> = Vec::new();
    let mut i = from;
    while i < to
        invariant
            from <= i <= to <= b@.len(),
            v@ == b@.subrange(from as int, i as int),
        decreases to - i,
    {
        v.push(b[i]);
        i = i + 1;
        proof {
            assert(v@ =~= b@.subrange(from as int, i as int));
        }
    }
    v
}

/// Whether a model file holds everything its counts announce (a file with the "LVM1" header that doesn't is one
/// the game can't read: it stops on it).
pub fn lvm_file_complete(b: &[u8]) -> (ok: bool)
    ensures
        ok == (lvm_header(b@) ==> lvm_complete(b@)),
{
    if b.len() < 16 || b[0] != 76 || b[1] != 86 || b[2] != 77 || b[3] != 49 {
        return true;
    }
    let len = b.len() as u128;
    let mut p: usize = 4;
    let nv = read_word(b, &mut p) as u128;
    let nt = read_word(b, &mut p) as u128;
    let nb = read_word(b, &mut p) as u128;
    let at = 16 + 36 * nv + 12 * nt;
    if at + 4 > len {
        return false;
    }
    let mut o: usize = at as usize;
    let nm = read_word(b, &mut o);
    let mut k: u32 = 0;
    while k < nm
        invariant
            lvm_header(b@),
            moves_at(b@) + 4 <= b@.len(),
            nb == le32(b@, 12),
            len == b@.len(),
            nm == le32(b@, moves_at(b@)),
            k <= nm,
            o == move_at(b@, k as nat),
            o <= b@.len(),
            forall|j: nat| j < k ==> #[trigger] move_at(b@, j) < b@.len() && move_at(b@, j) + 9 + b@[move_at(b@, j)] <= b@.len()
                && move_at(b@, j) + move_size(b@, move_at(b@, j)) <= b@.len(),
        decreases nm - k,
    {
        if o >= b.len() {
            proof {
                assert(!(move_at(b@, k as nat) < b@.len()));
            }
            return false;
        }
        let l = b[o] as usize;
        if (o as u128) + 9 + (l as u128) > len {
            proof {
                assert(!(move_at(b@, k as nat) + 9 + b@[move_at(b@, k as nat)] <= b@.len()));
            }
            return false;
        }
        let mut q = o + 1 + l;
        let frames = read_word(b, &mut q) as u128;
        proof {
            assert(frames * nb <= 0xffff_ffff * 0xffff_ffff) by (nonlinear_arith)
                requires
                    frames <= 0xffff_ffff,
                    nb <= 0xffff_ffff,
            ;
        }
        let size = 9 + (l as u128) + 4 * (frames * nb * 12);
        proof {
            assert(size == move_size(b@, o as int));
        }
        if (o as u128) + size > len {
            proof {
                assert(!(move_at(b@, k as nat) + move_size(b@, move_at(b@, k as nat)) <= b@.len()));
            }
            return false;
        }
        o = o + (size as usize);
        k = k + 1;
    }
    true
}

/// Reads the model file (load): None when it isn't one (too short, or it doesn't start with "LVM1").
pub fn parse_lvm(b: &[u8]) -> (r: Option<Lvm>)
    requires
        lvm_header(b@) ==> lvm_complete(b@),
    ensures
        match r {
            Some(m) => lvm_header(b@) && lvm_read(b@, m),
            None => !lvm_header(b@),
        },
{
    if b.len() < 16 || b[0] != 76 || b[1] != 86 || b[2] != 77 || b[3] != 49 {
        return None;
    }
    let mut o: usize = 4;
    let nv = read_word(b, &mut o);
    let nt = read_word(b, &mut o);
    let nb = read_word(b, &mut o);
    let mut vertices: Vec<LvmVertex> = Vec::new();
    let mut i: usize = 0;
    while i < nv as usize
        invariant
            lvm_header(b@),
            lvm_complete(b@),
            nv == le32(b@, 4),
            nt == le32(b@, 8),
            i <= nv,
            o == 16 + 36 * i,
            vertices@.len() == i,
            forall|j: int| 0 <= j < i ==> #[trigger] vertices@[j] == vertex_at(b@, 16 + 36 * j),
        decreases nv - i,
    {
        let v = read_vertex(b, &mut o);
        vertices.push(v);
        i = i + 1;
    }
    let mut tris: Vec<(u32, u32, u32)> = Vec::new();
    let mut t: usize = 0;
    while t < nt as usize
        invariant
            lvm_header(b@),
            lvm_complete(b@),
            nv == le32(b@, 4),
            nt == le32(b@, 8),
            t <= nt,
            o == 16 + 36 * nv + 12 * t,
            tris@.len() == t,
            forall|j: int| 0 <= j < t ==> #[trigger] tris@[j] == (
                le32(b@, 16 + 36 * le32(b@, 4) + 12 * j) as u32,
                le32(b@, 16 + 36 * le32(b@, 4) + 12 * j + 4) as u32,
                le32(b@, 16 + 36 * le32(b@, 4) + 12 * j + 8) as u32,
            ),
        decreases nt - t,
    {
        let a = read_word(b, &mut o);
        let c = read_word(b, &mut o);
        let d = read_word(b, &mut o);
        tris.push((a, c, d));
        t = t + 1;
    }
    let nm = read_word(b, &mut o);
    let mut moves: Vec<LvmMove> = Vec::new();
    let mut k: usize = 0;
    while k < nm as usize
        invariant
            lvm_header(b@),
            lvm_complete(b@),
            nm == le32(b@, moves_at(b@)),
            k <= nm,
            o == move_at(b@, k as nat),
            moves@.len() == k,
            forall|j: int| 0 <= j < k ==> move_read(b@, j as nat, #[trigger] moves@[j]),
        decreases nm - k,
    {
        proof {
            assert(move_at(b@, k as nat) < b@.len());
        }
        let m = read_move(b, &mut o, Ghost(k as nat));
        moves.push(m);
        k = k + 1;
    }
    Some(Lvm { vertices, tris, joints: nb, moves })
}

fn same_bytes(a: &Vec<u8>, b: &[u8]) -> (r: bool)
    ensures
        r == (a@ == b@),
{
    if a.len() != b.len() {
        return false;
    }
    let mut i: usize = 0;
    while i < a.len()
        invariant
            a@.len() == b@.len(),
            i <= a@.len(),
            forall|j: int| 0 <= j < i ==> a@[j] == b@[j],
        decreases a@.len() - i,
    {
        if a[i] != b[i] {
            return false;
        }
        i = i + 1;
    }
    proof {
        assert(a@ =~= b@);
    }
    true
}

/// The move the game plays under a name: the last one in the file with that name (a later move replaces an
/// earlier one of the same name, as the game keeps its moves by name), None when no move has it. Names are
/// compared as stored.
pub fn find_move(m: &Lvm, name: &[u8]) -> (r: Option<usize>)
    ensures
        match r {
            Some(i) => i < m.moves@.len() && m.moves@[i as int].name@ == name@ && forall|j: int|
                i < j < m.moves@.len() ==> #[trigger] m.moves@[j].name@ != name@,
            None => forall|j: int| 0 <= j < m.moves@.len() ==> #[trigger] m.moves@[j].name@ != name@,
        },
{
    let mut k: usize = m.moves.len();
    while k > 0
        invariant
            k <= m.moves@.len(),
            forall|j: int| k <= j < m.moves@.len() ==> #[trigger] m.moves@[j].name@ != name@,
        decreases k,
    {
        k = k - 1;
        if same_bytes(&m.moves[k].name, name) {
            return Some(k);
        }
    }
    None
}

/// What the model file holds, read as it is laid out: after "LVM1", the vertex, triangle and joint counts (little-
/// endian u32s at bytes 4, 8 and 12); then each vertex in 36 bytes from byte 16: its position (x, y, z), its skin
/// uv (u, then v) and its ball uv (u, then v) as seven little-endian f32s, then its 4 joint indices and its 4
/// weights, a byte each; then each triangle as three little-endian u32s.
pub proof fn law_model_read_as_laid_out(b: Seq<u8>, m: Lvm)
    requires
        lvm_read(b, m),
    ensures
        ({
            let word = |o: int| b[o] as int + b[o + 1] as int * 256 + b[o + 2] as int * 65536 + b[o + 3] as int * 16777216;
            &&& m.vertices@.len() == word(4)
            &&& m.tris@.len() == word(8)
            &&& m.joints == word(12)
            &&& forall|i: int| 0 <= i < m.vertices@.len() ==> {
                let v = #[trigger] m.vertices@[i];
                let o = 16 + 36 * i;
                &&& v.pos.0 == word(o) && v.pos.1 == word(o + 4) && v.pos.2 == word(o + 8)
                &&& v.uv.0 == word(o + 12) && v.uv.1 == word(o + 16)
                &&& v.ball_uv.0 == word(o + 20) && v.ball_uv.1 == word(o + 24)
                &&& v.joints == (b[o + 28], b[o + 29], b[o + 30], b[o + 31])
                &&& v.weights == (b[o + 32], b[o + 33], b[o + 34], b[o + 35])
            }
            &&& forall|t: int| 0 <= t < m.tris@.len() ==> {
                let tr = #[trigger] m.tris@[t];
                let o = 16 + 36 * word(4) + 12 * t;
                tr.0 == word(o) && tr.1 == word(o + 4) && tr.2 == word(o + 8)
            }
        }),
{
    let word = |o: int| b[o] as int + b[o + 1] as int * 256 + b[o + 2] as int * 65536 + b[o + 3] as int * 16777216;
    assert forall|o: int| #[trigger] word(o) == le32(b, o) by {}
    assert forall|i: int| 0 <= i < m.vertices@.len() implies #[trigger] m.vertices@[i] == vertex_at(b, 16 + 36 * i) by {}
    assert forall|o: int| 0 <= #[trigger] le32(b, o) < 0x1_0000_0000 by {
        assert(0 <= b[o] < 256 && 0 <= b[o + 1] < 256 && 0 <= b[o + 2] < 256 && 0 <= b[o + 3] < 256);
    }
}

/// The moves, read as they are laid out after the triangles: their count (a little-endian u32), then each move in
/// turn, the first right after the count and each next one right after the one before: its name's length (a byte)
/// and name, its frame count and its frame rate (little-endian u32 and f32), then, per frame and joint, 12
/// little-endian f32s.
pub proof fn law_moves_read_as_laid_out(b: Seq<u8>, m: Lvm)
    requires
        lvm_read(b, m),
    ensures
        ({
            let word = |o: int| b[o] as int + b[o + 1] as int * 256 + b[o + 2] as int * 65536 + b[o + 3] as int * 16777216;
            let first = 16 + 36 * word(4) + 12 * word(8);
            &&& m.moves@.len() == word(first)
            &&& m.moves@.len() > 0 ==> move_at(b, 0) == first + 4
            &&& forall|k: int| 0 <= k < m.moves@.len() ==> {
                let mv = #[trigger] m.moves@[k];
                let o = move_at(b, k as nat);
                let l = b[o] as int;
                &&& mv.name@ == b.subrange(o + 1, o + 1 + l)
                &&& mv.frames == word(o + 1 + l)
                &&& mv.fps == word(o + 5 + l)
                &&& mv.data@.len() == word(o + 1 + l) * word(12) * 12
                &&& forall|j: int| 0 <= j < mv.data@.len() ==> #[trigger] mv.data@[j] == word(o + 9 + l + 4 * j)
                &&& k + 1 < m.moves@.len() ==> move_at(b, (k + 1) as nat) == o + 1 + l + 8 + 4 * mv.data@.len()
            }
        }),
{
    let word = |o: int| b[o] as int + b[o + 1] as int * 256 + b[o + 2] as int * 65536 + b[o + 3] as int * 16777216;
    assert forall|o: int| #[trigger] word(o) == le32(b, o) by {}
    assert forall|k: int| 0 <= k < m.moves@.len() implies move_read(b, k as nat, #[trigger] m.moves@[k]) by {}
}

} // verus!
