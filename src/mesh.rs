//! The face records of a Wavefront OBJ mesh.
use crate::text::{chars_of, digit, digit_value, is_digit, is_white_space, white_space};
use vstd::prelude::*;

verus! {

/// One triangle of a mesh: three indices into the vertex array, three into
/// the normal array and three into the texture-coordinate array, all 0-based.
#[derive(Debug, Default, Copy, Clone, PartialEq, Eq, Structural)]
pub struct Triangle {
    pub a: usize,
    pub b: usize,
    pub c: usize,
    pub a_normal: usize,
    pub b_normal: usize,
    pub c_normal: usize,
    pub a_texture: usize,
    pub b_texture: usize,
    pub c_texture: usize,
}

/// An OBJ text did not have the expected form.
#[derive(Debug)]
pub struct ParseObjError {}

/// Where the face scanner stands between two characters.
#[derive(Debug, Clone, Copy, PartialEq, Eq, Structural)]
pub enum FaceParseState {
    Ready,
    Number,
    Slash,
}

/// Which of the three indices of a corner (`v/vt/vn`) a number gives.
#[derive(Debug, Clone, Copy, PartialEq, Eq, Structural)]
pub enum CurrentNumberType {
    Vert,
    TextureCoord,
    Normal,
}

pub open spec fn next_number_type(t: CurrentNumberType) -> CurrentNumberType {
    match t {
        CurrentNumberType::Vert => CurrentNumberType::TextureCoord,
        CurrentNumberType::TextureCoord => CurrentNumberType::Normal,
        CurrentNumberType::Normal => CurrentNumberType::Vert,
    }
}

/// The next kind of index in the cycle vertex, texture coordinate, normal.
pub fn increment_number_type(current_type: CurrentNumberType) -> (r: CurrentNumberType)
    ensures
        r == next_number_type(current_type),
{
    match current_type {
        CurrentNumberType::Vert => CurrentNumberType::TextureCoord,
        CurrentNumberType::TextureCoord => CurrentNumberType::Normal,
        CurrentNumberType::Normal => CurrentNumberType::Vert,
    }
}

/// `t` with the index of kind `kind` at corner `corner` set to `value`;
/// a corner past the third leaves `t` as it is.
pub open spec fn with_index(t: Triangle, corner: nat, value: usize, kind: CurrentNumberType) -> Triangle {
    match kind {
        CurrentNumberType::Vert => if corner == 0 {
            Triangle { a: value, ..t }
        } else if corner == 1 {
            Triangle { b: value, ..t }
        } else if corner == 2 {
            Triangle { c: value, ..t }
        } else {
            t
        },
        CurrentNumberType::Normal => if corner == 0 {
            Triangle { a_normal: value, ..t }
        } else if corner == 1 {
            Triangle { b_normal: value, ..t }
        } else if corner == 2 {
            Triangle { c_normal: value, ..t }
        } else {
            t
        },
        CurrentNumberType::TextureCoord => if corner == 0 {
            Triangle { a_texture: value, ..t }
        } else if corner == 1 {
            Triangle { b_texture: value, ..t }
        } else if corner == 2 {
            Triangle { c_texture: value, ..t }
        } else {
            t
        },
    }
}

/// Stores the 1-based index `num` as the 0-based index of kind `num_type`
/// at corner `idx`. Fails, leaving `face` as it was, when the corner is past
/// the third or `num` is not a 1-based index.
pub fn push_number_into_face(
    face: &mut Triangle,
    idx: usize,
    num: usize,
    num_type: CurrentNumberType,
) -> (r: Option<()>)
    ensures
        r is Some <==> (idx <= 2 && num >= 1),
        r is Some ==> *final(face) == with_index(*old(face), idx as nat, (num - 1) as usize, num_type),
        r is None ==> *final(face) == *old(face),
{
    if idx > 2 || num == 0 {
        return None;
    }
    let value: usize = num - 1;
    match num_type {
        CurrentNumberType::Vert => {
            if idx == 0 {
                face.a = value;
            } else if idx == 1 {
                face.b = value;
            } else {
                face.c = value;
            }
        },
        CurrentNumberType::Normal => {
            if idx == 0 {
                face.a_normal = value;
            } else if idx == 1 {
                face.b_normal = value;
            } else {
                face.c_normal = value;
            }
        },
        CurrentNumberType::TextureCoord => {
            if idx == 0 {
                face.a_texture = value;
            } else if idx == 1 {
                face.b_texture = value;
            } else {
                face.c_texture = value;
            }
        },
    }
    Some(())
}

/// What the face scanner knows after a prefix of the line.
pub struct FaceScan {
    pub state: FaceParseState,
    pub num_type: CurrentNumberType,
    pub corner: nat,
    pub num: nat,
    pub tri: Triangle,
    pub seen_normals: bool,
}

pub open spec fn face_scan_start() -> FaceScan {
    FaceScan {
        state: FaceParseState::Ready,
        num_type: CurrentNumberType::Vert,
        corner: 0,
        num: 0,
        tri: Triangle { a: 0, b: 0, c: 0, a_normal: 0, b_normal: 0, c_normal: 0, a_texture: 0, b_texture: 0, c_texture: 0 },
        seen_normals: false,
    }
}

/// The triangle with the number being read stored into it.
pub open spec fn store_number(st: FaceScan) -> Triangle {
    with_index(st.tri, st.corner, (st.num - 1) as usize, st.num_type)
}

/// One character of a face line. A digit starts or extends a number; `/`
/// ends a number and moves to the next kind of index; white space ends a
/// corner; `f` and white space between corners are skipped. Anything else,
/// a number that is 0 or does not fit in `usize`, and `//` right after a
/// `/`, reject the line.
pub open spec fn face_step(st: FaceScan, c: char) -> Option<FaceScan> {
    match st.state {
        FaceParseState::Ready => if is_digit(c) {
            Some(FaceScan { state: FaceParseState::Number, num: digit_value(c), ..st })
        } else if is_white_space(c) || c == 'f' {
            Some(st)
        } else {
            None
        },
        FaceParseState::Number => if is_digit(c) {
            if st.num * 10 + digit_value(c) > usize::MAX {
                None
            } else {
                Some(FaceScan { num: st.num * 10 + digit_value(c), ..st })
            }
        } else if c == '/' {
            if st.num == 0 {
                None
            } else {
                Some(FaceScan {
                    state: FaceParseState::Slash,
                    num_type: next_number_type(st.num_type),
                    tri: store_number(st),
                    ..st
                })
            }
        } else if is_white_space(c) {
            if st.num == 0 {
                None
            } else {
                Some(FaceScan {
                    state: FaceParseState::Ready,
                    num_type: CurrentNumberType::Vert,
                    corner: st.corner + 1,
                    tri: store_number(st),
                    seen_normals: st.seen_normals || st.num_type == CurrentNumberType::Normal,
                    ..st
                })
            }
        } else {
            None
        },
        FaceParseState::Slash => if is_digit(c) {
            Some(FaceScan { state: FaceParseState::Number, num: digit_value(c), ..st })
        } else if c == '/' {
            Some(FaceScan {
                state: FaceParseState::Ready,
                num_type: next_number_type(st.num_type),
                ..st
            })
        } else {
            None
        },
    }
}

/// The scanner's state after the whole of `s`, or `None` once a character
/// has rejected the line.
pub open spec fn face_scan(s: Seq<char>) -> Option<FaceScan>
    decreases s.len(),
{
    if s.len() == 0 {
        Some(face_scan_start())
    } else {
        match face_scan(s.drop_last()) {
            Some(st) => face_step(st, s.last()),
            None => None,
        }
    }
}

/// The triangle of a face line: the number still being read at the end is
/// stored, and where no corner closed with a normal index the normal indices
/// are those of the vertices.
pub open spec fn face_finish(st: FaceScan) -> Option<Triangle> {
    if st.state == FaceParseState::Number && st.num == 0 {
        None
    } else {
        let t = if st.state == FaceParseState::Number {
            store_number(st)
        } else {
            st.tri
        };
        if st.seen_normals {
            Some(t)
        } else {
            Some(Triangle { a_normal: t.a, b_normal: t.b, c_normal: t.c, ..t })
        }
    }
}

/// The triangle that the face line `s` describes, if it is well formed.
pub open spec fn face_of(s: Seq<char>) -> Option<Triangle> {
    match face_scan(s) {
        Some(st) => face_finish(st),
        None => None,
    }
}

/// Once a prefix of a face line is rejected, so is the whole line.
proof fn lemma_rejected_prefix(s: Seq<char>, j: int)
    requires
        0 <= j <= s.len(),
        face_scan(s.take(j)) is None,
    ensures
        face_scan(s) is None,
    decreases s.len() - j,
{
    if j < s.len() {
        assert(s.take(j + 1).drop_last() == s.take(j));
        lemma_rejected_prefix(s, j + 1);
    } else {
        assert(s.take(j) == s);
    }
}

/// Reads an OBJ face line such as `f 1/4/7 2/5/8 3/6/9`. Each corner is
/// `v`, `v/vt`, `v//vn` or `v/vt/vn` with 1-based indices; the result holds
/// them 0-based, and normal indices equal to the vertex indices where the
/// line gives none.
pub fn parse_face(face_str: &str) -> (r: Option<Triangle>)
    ensures
        r == face_of(face_str@),
{
    let cs: Vec<char> = chars_of(face_str);
    let mut state: FaceParseState = FaceParseState::Ready;
    let mut num_type: CurrentNumberType = CurrentNumberType::Vert;
    let mut vert_idx: usize = 0;
    let mut num: usize = 0;
    let mut ret: Triangle = Triangle::default_triangle();
    let mut seen_normals: bool = false;
    let mut i: usize = 0;
    while i < cs.len()
        invariant
            cs@ == face_str@,
            i <= cs@.len(),
            vert_idx <= i,
            face_scan(cs@.take(i as int)) == Some(FaceScan {
                state,
                num_type,
                corner: vert_idx as nat,
                num: num as nat,
                tri: ret,
                seen_normals,
            }),
        decreases cs@.len() - i,
    {
        let c: char = cs[i];
        proof {
            assert(cs@.take(i + 1).drop_last() == cs@.take(i as int));
            assert(cs@.take(i + 1).last() == c);
        }
        match state {
            FaceParseState::Ready => {
                if digit(c) {
                    let u: u32 = c as u32;
                    num = (u - 48) as usize;
                    state = FaceParseState::Number;
                } else if white_space(c) || c == 'f' {
                } else {
                    proof {
                        lemma_rejected_prefix(cs@, i + 1);
                    }
                    return None;
                }
            },
            FaceParseState::Number => {
                if digit(c) {
                    let u: u32 = c as u32;
                    let d: usize = (u - 48) as usize;
                    if num > (usize::MAX - d) / 10 {
                        proof {
                            assert(num * 10 + d > usize::MAX) by (nonlinear_arith)
                                requires num > (usize::MAX - d) / 10, d <= 9;
                        }
                        proof {
                            lemma_rejected_prefix(cs@, i + 1);
                        }
                        return None;
                    }
                    proof {
                        assert(num * 10 + d <= usize::MAX) by (nonlinear_arith)
                            requires num <= (usize::MAX - d) / 10, d <= 9;
                    }
                    num = num * 10 + d;
                } else if c == '/' {
                    if num == 0 {
                        proof {
                            lemma_rejected_prefix(cs@, i + 1);
                        }
                        return None;
                    }
                    // a corner past the third is read and dropped
                    let _ = push_number_into_face(&mut ret, vert_idx, num, num_type);
                    num_type = increment_number_type(num_type);
                    state = FaceParseState::Slash;
                } else if white_space(c) {
                    if num == 0 {
                        proof {
                            lemma_rejected_prefix(cs@, i + 1);
                        }
                        return None;
                    }
                    // a corner past the third is read and dropped
                    let _ = push_number_into_face(&mut ret, vert_idx, num, num_type);
                    seen_normals = seen_normals || num_type == CurrentNumberType::Normal;
                    num_type = CurrentNumberType::Vert;
                    state = FaceParseState::Ready;
                    vert_idx = vert_idx + 1;
                } else {
                    proof {
                        lemma_rejected_prefix(cs@, i + 1);
                    }
                    return None;
                }
            },
            FaceParseState::Slash => {
                if digit(c) {
                    let u: u32 = c as u32;
                    num = (u - 48) as usize;
                    state = FaceParseState::Number;
                } else if c == '/' {
                    num_type = increment_number_type(num_type);
                    state = FaceParseState::Ready;
                } else {
                    proof {
                        lemma_rejected_prefix(cs@, i + 1);
                    }
                    return None;
                }
            },
        }
        i = i + 1;
    }
    proof {
        assert(cs@.take(cs@.len() as int) == cs@);
    }
    if state == FaceParseState::Number {
        if num == 0 {
            return None;
        }
        // a corner past the third is read and dropped
        let _ = push_number_into_face(&mut ret, vert_idx, num, num_type);
    }
    if !seen_normals {
        ret.a_normal = ret.a;
        ret.b_normal = ret.b;
        ret.c_normal = ret.c;
    }
    Some(ret)
}

impl Triangle {
    /// The triangle whose nine indices are all 0.
    pub fn default_triangle() -> (t: Triangle)
        ensures
            t == face_scan_start().tri,
    {
        Triangle { a: 0, b: 0, c: 0, a_normal: 0, b_normal: 0, c_normal: 0, a_texture: 0, b_texture: 0, c_texture: 0 }
    }
}

/// A mesh file gave no normals when every face's normal indices equal its
/// vertex indices, which is what a face line without normals reads as.
pub open spec fn normals_absent(faces: Seq<Triangle>) -> bool {
    forall|i: int|
        0 <= i < faces.len() ==> {
            let t = #[trigger] faces[i];
            t.a == t.a_normal && t.b == t.b_normal && t.c == t.c_normal
        }
}

/// Whether normals are to be generated for a mesh with these faces.
pub fn needs_generated_normals(faces: &Vec<Triangle>) -> (r: bool)
    ensures
        r == normals_absent(faces@),
{
    let mut i: usize = 0;
    while i < faces.len()
        invariant
            i <= faces@.len(),
            normals_absent(faces@.take(i as int)),
        decreases faces@.len() - i,
    {
        let t = faces[i];
        if !(t.a == t.a_normal && t.b == t.b_normal && t.c == t.c_normal) {
            return false;
        }
        assert(faces@.take(i + 1) =~= faces@.take(i as int).push(t));
        i = i + 1;
    }
    assert(faces@.take(faces@.len() as int) =~= faces@);
    true
}

/// The faces that use vertex `v`, in order: a face appears once for each of
/// its corners at `v`.
pub open spec fn faces_using(faces: Seq<Triangle>, v: nat) -> Seq<usize>
    decreases faces.len(),
{
    if faces.len() == 0 {
        Seq::empty()
    } else {
        let i = (faces.len() - 1) as usize;
        let t = faces.last();
        faces_using(faces.drop_last(), v)
            + (if t.a == v { seq![i] } else { Seq::empty() })
            + (if t.b == v { seq![i] } else { Seq::empty() })
            + (if t.c == v { seq![i] } else { Seq::empty() })
    }
}

/// For each vertex, the faces that use it; the sums of face normals that
/// give generated vertex normals are taken over these lists.
pub fn faces_by_vertex(faces: &Vec<Triangle>, vertex_count: usize) -> (r: Vec<Vec<usize>>)
    requires
        forall|i: int|
            0 <= i < faces@.len() ==> (#[trigger] faces@[i]).a < vertex_count && faces@[i].b < vertex_count
                && faces@[i].c < vertex_count,
    ensures
        r@.len() == vertex_count,
        forall|v: int| 0 <= v < vertex_count ==> (#[trigger] r@[v])@ == faces_using(faces@, v as nat),
{
    let mut r: Vec<Vec<usize>> = Vec::new();
    let mut v: usize = 0;
    while v < vertex_count
        invariant
            v <= vertex_count,
            r@.len() == v,
            forall|u: int| 0 <= u < v ==> (#[trigger] r@[u])@ == Seq::<usize>::empty(),
        decreases vertex_count - v,
    {
        r.push(Vec::new());
        v = v + 1;
    }
    assert(faces@.take(0) =~= Seq::<Triangle>::empty());
    let mut i: usize = 0;
    while i < faces.len()
        invariant
            i <= faces@.len(),
            r@.len() == vertex_count,
            forall|j: int|
                0 <= j < faces@.len() ==> (#[trigger] faces@[j]).a < vertex_count && faces@[j].b < vertex_count
                    && faces@[j].c < vertex_count,
            forall|u: int| 0 <= u < vertex_count ==> (#[trigger] r@[u])@ == faces_using(faces@.take(i as int), u as nat),
        decreases faces@.len() - i,
    {
        let t = faces[i];
        let ghost before = r@;
        r[t.a].push(i);
        r[t.b].push(i);
        r[t.c].push(i);
        assert(faces@.take(i + 1).drop_last() =~= faces@.take(i as int));
        assert forall|u: int| 0 <= u < vertex_count implies (#[trigger] r@[u])@ == faces_using(faces@.take(i + 1), u as nat) by {
            let base = faces_using(faces@.take(i as int), u as nat);
            assert(before[u]@ == base);
            assert(r@[u]@ =~= base + (if t.a == u { seq![i] } else { Seq::empty() }) + (if t.b == u { seq![i] } else { Seq::empty() })
                + (if t.c == u { seq![i] } else { Seq::empty() }));
        }
        i = i + 1;
    }
    assert(faces@.take(faces@.len() as int) =~= faces@);
    r
}

} // verus!
