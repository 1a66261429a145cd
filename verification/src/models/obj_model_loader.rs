//! Parsing of Wavefront OBJ meshes: vertex positions (`v`), vertex normals
//! (`vn`), material libraries (`mtllib`), the material in use (`usemtl`) and
//! polygonal faces (`f`), which are fan-triangulated.
use vstd::prelude::*;
use rand::Rng;
use crate::geometry::Color;
use crate::models::model_store::MaterialStore;
use crate::models::mtl_loader::{Material, MaterialView, optional_material_view};
use crate::text::{
    blank_or_comment, char_seqs, float_tokens, float_tokens_exec, is_blank_or_comment, is_word,
    parse_usize, parse_usize_spec, split_on, split_on_exec, string_from_chars, text_lines,
    token_lines, tokenize_lines,
};

verus! {

/// The text of three coordinates, each of which reads as a floating-point number.
pub type CoordsView = (Seq<char>, Seq<char>, Seq<char>);

/// The colour of a face: the diffuse colour of its material (as the text of
/// three numbers), or a fixed colour.
#[derive(Debug, Clone)]
pub enum FaceColor {
    Diffuse(String, String, String),
    Fixed(Color),
}

/// The abstract value of a face colour.
pub enum FaceColorView {
    Diffuse(CoordsView),
    Fixed(Color),
}

impl View for FaceColor {
    type V = FaceColorView;

    open spec fn view(&self) -> FaceColorView {
        match self {
            FaceColor::Diffuse(r, g, b) => FaceColorView::Diffuse((r@, g@, b@)),
            FaceColor::Fixed(c) => FaceColorView::Fixed(*c),
        }
    }
}

/// A triangle of a mesh: the (0-based) indices of its three vertices and of
/// its normal, and its colour.
#[derive(Debug, Clone)]
pub struct ObjTriangle {
    pub vertices: [usize; 3],
    pub normal: usize,
    pub color: FaceColor,
}

/// The abstract value of a triangle.
pub struct TriangleView {
    pub vertices: [usize; 3],
    pub normal: usize,
    pub color: FaceColorView,
}

impl View for ObjTriangle {
    type V = TriangleView;

    open spec fn view(&self) -> TriangleView {
        TriangleView { vertices: self.vertices, normal: self.normal, color: self.color@ }
    }
}

/// A mesh: the text of the coordinates of its vertices and normals, and its
/// triangles.
#[derive(Debug, Clone)]
pub struct ObjModel {
    pub vertices: Vec<(String, String, String)>,
    pub normals: Vec<(String, String, String)>,
    pub triangles: Vec<ObjTriangle>,
}

/// The abstract value of a mesh.
pub struct ObjModelView {
    pub vertices: Seq<CoordsView>,
    pub normals: Seq<CoordsView>,
    pub triangles: Seq<TriangleView>,
}

/// The views of a sequence of coordinate texts.
pub open spec fn coords_views(cs: Seq<(String, String, String)>) -> Seq<CoordsView> {
    cs.map_values(|c: (String, String, String)| (c.0@, c.1@, c.2@))
}

/// The views of a sequence of triangles.
pub open spec fn triangle_views(ts: Seq<ObjTriangle>) -> Seq<TriangleView> {
    ts.map_values(|t: ObjTriangle| t@)
}

impl View for ObjModel {
    type V = ObjModelView;

    open spec fn view(&self) -> ObjModelView {
        ObjModelView {
            vertices: coords_views(self.vertices@),
            normals: coords_views(self.normals@),
            triangles: triangle_views(self.triangles@),
        }
    }
}

/// Why a mesh is rejected.
#[derive(Debug, Clone, Copy, PartialEq, Eq, Structural)]
pub enum ObjError {
    /// `mtllib` without a file name.
    MissingFileName,
    /// `usemtl` without a material name.
    MissingMaterialName,
    /// `usemtl` names a material that no library of the mesh defines.
    UnknownMaterial,
    /// A `v` line with fewer than three numbers.
    MalformedVertex,
    /// A `vn` line with fewer than three numbers.
    MalformedNormal,
    /// A face with fewer than three vertices, a vertex reference that is not
    /// `v/t/n` with decimal `v` and `n`, or an index that refers to no vertex
    /// or normal read so far.
    MalformedFace,
    /// A face drawn with a material that has no diffuse colour.
    MaterialWithoutKd,
}

/// The vertex and normal indices (1-based, as written) of a face's vertex
/// reference `v/t/n`: the first and third of its `/`-separated parts, each a
/// decimal numeral; the texture index is not read.
pub open spec fn vertex_ref(token: Seq<char>) -> Option<(usize, usize)> {
    let parts = split_on(token, '/');
    if parts.len() < 3 {
        None
    } else {
        match (parse_usize_spec(parts[0]), parse_usize_spec(parts[2])) {
            (Some(v), Some(n)) => Some((v, n)),
            _ => None,
        }
    }
}

/// The vertex references of a face, or `None` when one does not read.
pub open spec fn face_refs(tokens: Seq<Seq<char>>) -> Option<Seq<(usize, usize)>>
    decreases tokens.len(),
{
    if tokens.len() == 0 {
        Some(seq![])
    } else {
        match face_refs(tokens.drop_last()) {
            Some(r) => match vertex_ref(tokens.last()) {
                Some(p) => Some(r.push(p)),
                None => None,
            },
            None => None,
        }
    }
}

/// The colour of a face drawn with material `current`: the material's
/// diffuse colour, or `random` when no material is in use.
pub open spec fn face_color_spec(current: Option<MaterialView>, random: Color) -> Result<FaceColorView, ObjError> {
    match current {
        Some(m) => match m.kd {
            Some(kd) => Ok(FaceColorView::Diffuse(kd)),
            None => Err(ObjError::MaterialWithoutKd),
        },
        None => Ok(FaceColorView::Fixed(random)),
    }
}

/// Whether every vertex reference refers to one of the `nv` vertices.
pub open spec fn refs_in_range(refs: Seq<(usize, usize)>, nv: nat) -> bool {
    forall|i: int| 0 <= i < refs.len() ==> 1 <= (#[trigger] refs[i]).0 <= nv
}

/// The fan triangulation of a face with vertex references `refs`: for the
/// face `v0 v1 ... vN` the triangles `[v0, v1, v2], [v0, v2, v3], ...,
/// [v0, vN-1, vN]`, all with the face's first normal and the colour `color`.
pub open spec fn fan_triangles(refs: Seq<(usize, usize)>, color: FaceColorView) -> Seq<TriangleView> {
    Seq::new(
        (refs.len() - 2) as nat,
        |i: int|
            TriangleView {
                vertices: [(refs[0].0 - 1) as usize, (refs[i + 1].0 - 1) as usize, (refs[i + 2].0 - 1) as usize],
                normal: (refs[0].1 - 1) as usize,
                color,
            },
    )
}

/// The triangles of the face with vertex references `tokens`, drawn with
/// material `current` when `nv` vertices and `nn` normals have been read; a
/// face without material takes the colour `random`.
pub open spec fn face_spec(
    tokens: Seq<Seq<char>>,
    current: Option<MaterialView>,
    nv: nat,
    nn: nat,
    random: Color,
) -> Result<Seq<TriangleView>, ObjError> {
    if tokens.len() < 3 {
        Err(ObjError::MalformedFace)
    } else {
        match face_refs(tokens) {
            None => Err(ObjError::MalformedFace),
            Some(refs) => {
                let n = refs[0].1;
                if n == 0 || n - 1 >= nn {
                    Err(ObjError::MalformedFace)
                } else {
                    match face_color_spec(current, random) {
                        Err(e) => Err(e),
                        Ok(color) => if refs_in_range(refs, nv) {
                            Ok(fan_triangles(refs, color))
                        } else {
                            Err(ObjError::MalformedFace)
                        },
                    }
                }
            },
        }
    }
}


fn vertex_ref_exec(token: &[char]) -> (r: Option<(usize, usize)>)
    ensures
        r == vertex_ref(token@),
{
    let parts = split_on_exec(token, '/');
    if parts.len() < 3 {
        return None;
    }
    proof {
        assert(char_seqs(parts@)[0] == parts@[0]@);
        assert(char_seqs(parts@)[2] == parts@[2]@);
    }
    let v = parse_usize(parts[0].as_slice());
    let n = parse_usize(parts[2].as_slice());
    match (v, n) {
        (Some(v), Some(n)) => Some((v, n)),
        _ => None,
    }
}

fn face_refs_exec(tokens: &Vec<Vec<char>>, from: usize) -> (r: Option<Vec<(usize, usize)>>)
    requires
        from <= tokens@.len(),
    ensures
        match r {
            Some(v) => face_refs(char_seqs(tokens@).skip(from as int)) == Some(v@),
            None => face_refs(char_seqs(tokens@).skip(from as int)) is None,
        },
{
    let ghost all = char_seqs(tokens@).skip(from as int);
    let mut refs: Vec<(usize, usize)> = Vec::new();
    let mut i = from;
    assert(all.take(0) =~= seq![]);
    while i < tokens.len()
        invariant
            from <= i <= tokens@.len(),
            all == char_seqs(tokens@).skip(from as int),
            face_refs(all.take(i - from)) == Some(refs@),
        decreases tokens@.len() - i,
    {
        let ghost prefix = all.take(i - from);
        let ghost next = all.take(i - from + 1);
        proof {
            assert(next.drop_last() =~= prefix);
            assert(next.last() == tokens@[i as int]@);
        }
        match vertex_ref_exec(tokens[i].as_slice()) {
            Some(p) => {
                refs.push(p);
            },
            None => {
                proof {
                    lemma_face_refs_none_persists(all, i - from + 1);
                }
                return None;
            },
        }
        i = i + 1;
    }
    assert(all.take(i - from) =~= all);
    Some(refs)
}

proof fn lemma_face_refs_none_persists(tokens: Seq<Seq<char>>, k: int)
    requires
        0 <= k <= tokens.len(),
        face_refs(tokens.take(k)) is None,
    ensures
        face_refs(tokens) is None,
    decreases tokens.len() - k,
{
    if k < tokens.len() {
        assert(tokens.take(k + 1).drop_last() =~= tokens.take(k));
        lemma_face_refs_none_persists(tokens, k + 1);
    } else {
        assert(tokens.take(k) =~= tokens);
    }
}

proof fn lemma_face_refs_len(tokens: Seq<Seq<char>>)
    requires
        face_refs(tokens) is Some,
    ensures
        face_refs(tokens)->0.len() == tokens.len(),
    decreases tokens.len(),
{
    if tokens.len() > 0 {
        lemma_face_refs_len(tokens.drop_last());
    }
}

/// The colour of a face drawn with `current_material`: the material's
/// diffuse colour, or `random_color` when no material is in use.
pub fn face_color(current_material: &Option<Material>, random_color: Color) -> (color: Result<
    FaceColor,
    ObjError,
>)
    ensures
        match color {
            Ok(c) => face_color_spec(optional_material_view(*current_material), random_color) == Ok::<
                FaceColorView,
                ObjError,
            >(c@),
            Err(e) => face_color_spec(optional_material_view(*current_material), random_color) == Err::<
                FaceColorView,
                ObjError,
            >(e),
        },
{
    match current_material {
        Some(material) => match &material.kd {
            Some(kd) => Ok(FaceColor::Diffuse(kd.0.clone(), kd.1.clone(), kd.2.clone())),
            None => Err(ObjError::MaterialWithoutKd),
        },
        None => Ok(FaceColor::Fixed(random_color)),
    }
}

fn copy_face_color(c: &FaceColor) -> (copy: FaceColor)
    ensures
        copy@ == c@,
{
    match c {
        FaceColor::Diffuse(r, g, b) => FaceColor::Diffuse(r.clone(), g.clone(), b.clone()),
        FaceColor::Fixed(col) => FaceColor::Fixed(*col),
    }
}

/// The triangles of the face whose vertex references are `tokens[from..]`,
/// drawn with `current_material` when `num_vertices` vertices and
/// `num_normals` normals have been read; a face without material takes the
/// colour `random_color`.
pub fn parse_face(
    tokens: &Vec<Vec<char>>,
    from: usize,
    current_material: &Option<Material>,
    num_vertices: usize,
    num_normals: usize,
    random_color: Color,
) -> (triangles: Result<Vec<ObjTriangle>, ObjError>)
    requires
        from <= tokens@.len(),
    ensures
        match triangles {
            Ok(ts) => face_spec(
                char_seqs(tokens@).skip(from as int),
                optional_material_view(*current_material),
                num_vertices as nat,
                num_normals as nat,
                random_color,
            ) == Ok::<Seq<TriangleView>, ObjError>(triangle_views(ts@)),
            Err(e) => face_spec(
                char_seqs(tokens@).skip(from as int),
                optional_material_view(*current_material),
                num_vertices as nat,
                num_normals as nat,
                random_color,
            ) == Err::<Seq<TriangleView>, ObjError>(e),
        },
{
    let ghost all = char_seqs(tokens@).skip(from as int);
    if tokens.len() - from < 3 {
        return Err(ObjError::MalformedFace);
    }
    let refs = match face_refs_exec(tokens, from) {
        Some(r) => r,
        None => {
            return Err(ObjError::MalformedFace);
        },
    };
    proof {
        lemma_face_refs_len(all);
    }
    // Assume all indices share the share the same normal
    let normal_number = refs[0].1;
    if normal_number == 0 || normal_number - 1 >= num_normals {
        return Err(ObjError::MalformedFace);
    }
    let normal_index = normal_number - 1;
    let color = face_color(current_material, random_color)?;

    // Fan triangulation:
    // For a face with vertices [v0, v1, v2, v3, ... vN],
    // produce triangles: [v0, v1, v2], [v0, v2, v3], ..., [v0, v_{N-1}, vN].
    let mut k: usize = 0;
    #[verifier::loop_isolation(false)]
    while k < refs.len()
        invariant
            k <= refs@.len(),
            forall|j: int| 0 <= j < k ==> 1 <= (#[trigger] refs@[j]).0 <= num_vertices,
        decreases refs@.len() - k,
    {
        if refs[k].0 == 0 || refs[k].0 - 1 >= num_vertices {
            assert(!refs_in_range(refs@, num_vertices as nat)) by {
                assert(!(1 <= refs@[k as int].0 <= num_vertices));
            }
            return Err(ObjError::MalformedFace);
        }
        k = k + 1;
    }
    let mut triangles: Vec<ObjTriangle> = Vec::new();
    let mut i: usize = 1;
    while i < refs.len() - 1
        invariant
            1 <= i <= refs@.len() - 1,
            refs@.len() >= 3,
            refs_in_range(refs@, num_vertices as nat),
            normal_index == refs@[0].1 - 1,
            triangles@.len() == i - 1,
            triangle_views(triangles@) == fan_triangles(refs@, color@).take(i - 1),
        decreases refs@.len() - i,
    {
        let v0 = refs[0].0 - 1;
        let v1 = refs[i].0 - 1;
        let v2 = refs[i + 1].0 - 1;
        let ghost before = triangles@;
        triangles.push(ObjTriangle { vertices: [v0, v1, v2], normal: normal_index, color: copy_face_color(&color) });
        i = i + 1;
        proof {
            assert(triangles@ == before.push(triangles@[i - 2]));
            assert(triangle_views(triangles@) =~= fan_triangles(refs@, color@).take(i - 1));
        }
    }
    assert(fan_triangles(refs@, color@).take(i - 1) =~= fan_triangles(refs@, color@));
    Ok(triangles)
}


/// A random colour source of the `rand` crate, held only to draw colours.
#[verifier::external_type_specification]
#[verifier::external_body]
pub struct ExThreadRng(rand::rngs::ThreadRng);

/// Calls `rand::thread_rng`, which hands out the thread's lazily seeded
/// random generator; nothing is promised of it.
#[verifier::external_body]
fn thread_rng() -> rand::rngs::ThreadRng {
    rand::thread_rng()
}

/// Calls `Rng::gen::<u8>` on `rng`: a random byte, of which nothing is
/// promised (it depends on chance).
#[verifier::external_body]
fn random_u8(rng: &mut rand::rngs::ThreadRng) -> u8 {
    rng.gen()
}

/// A random colour, for a face drawn without material.
fn random_color() -> (color: Color) {
    let mut rng = thread_rng();
    let r = random_u8(&mut rng);
    let g = random_u8(&mut rng);
    let b = random_u8(&mut rng);
    Color::new(r, g, b)
}

/// What has been read of a mesh so far: the material library names, the
/// vertices and normals, the material in use, the triangles, and the number
/// of faces.
pub struct ObjState {
    pub files: Seq<Seq<char>>,
    pub vertices: Seq<CoordsView>,
    pub normals: Seq<CoordsView>,
    pub current: Option<MaterialView>,
    pub triangles: Seq<TriangleView>,
    pub faces: nat,
}

/// The first library of `files`, in the order they were named, that defines
/// a material `name`, and that material.
pub open spec fn find_material(
    files: Seq<Seq<char>>,
    store: Map<(Seq<char>, Seq<char>), MaterialView>,
    name: Seq<char>,
) -> Option<MaterialView>
    decreases files.len(),
{
    if files.len() == 0 {
        None
    } else if store.contains_key((files[0], name)) {
        Some(store[(files[0], name)])
    } else {
        find_material(files.skip(1), store, name)
    }
}

/// `mtllib`
pub open spec fn mtllib_word() -> Seq<char> {
    seq!['m', 't', 'l', 'l', 'i', 'b']
}

/// `usemtl`
pub open spec fn usemtl_word() -> Seq<char> {
    seq!['u', 's', 'e', 'm', 't', 'l']
}

/// `v`
pub open spec fn vertex_word() -> Seq<char> {
    seq!['v']
}

/// `vn`
pub open spec fn normal_word() -> Seq<char> {
    seq!['v', 'n']
}

/// `f`
pub open spec fn face_word() -> Seq<char> {
    seq!['f']
}

/// The first three numbers among the tokens after the keyword of line `t`.
pub open spec fn line_coords(t: Seq<Seq<char>>) -> Option<CoordsView> {
    let f = float_tokens(t.skip(1));
    if f.len() < 3 {
        None
    } else {
        Some((f[0], f[1], f[2]))
    }
}

/// Reading the line with tokens `t` of a mesh whose materials come from
/// `store`; the `k`-th face drawn without material takes colour `random[k]`.
pub open spec fn obj_step(
    st: ObjState,
    t: Seq<Seq<char>>,
    store: Map<(Seq<char>, Seq<char>), MaterialView>,
    random: Seq<Color>,
) -> Result<ObjState, ObjError> {
    if is_blank_or_comment(t) {
        Ok(st)
    } else if t[0] == mtllib_word() {
        if t.len() < 2 {
            Err(ObjError::MissingFileName)
        } else {
            Ok(ObjState { files: st.files.push(t[1]), ..st })
        }
    } else if t[0] == usemtl_word() {
        if t.len() < 2 {
            Err(ObjError::MissingMaterialName)
        } else {
            match find_material(st.files, store, t[1]) {
                Some(m) => Ok(ObjState { current: Some(m), ..st }),
                None => Err(ObjError::UnknownMaterial),
            }
        }
    } else if t[0] == vertex_word() {
        match line_coords(t) {
            Some(c) => Ok(ObjState { vertices: st.vertices.push(c), ..st }),
            None => Err(ObjError::MalformedVertex),
        }
    } else if t[0] == normal_word() {
        match line_coords(t) {
            Some(c) => Ok(ObjState { normals: st.normals.push(c), ..st }),
            None => Err(ObjError::MalformedNormal),
        }
    } else if t[0] == face_word() {
        match face_spec(t.skip(1), st.current, st.vertices.len(), st.normals.len(), random[st.faces as int]) {
            Ok(ts) => Ok(ObjState { triangles: st.triangles + ts, faces: st.faces + 1, ..st }),
            Err(e) => Err(e),
        }
    } else {
        Ok(st)
    }
}

/// The state after reading `lines`, or the error of the first line that
/// rejects the mesh.
pub open spec fn obj_read_lines(
    lines: Seq<Seq<Seq<char>>>,
    store: Map<(Seq<char>, Seq<char>), MaterialView>,
    random: Seq<Color>,
) -> Result<ObjState, ObjError>
    decreases lines.len(),
{
    if lines.len() == 0 {
        Ok(
            ObjState {
                files: seq![],
                vertices: seq![],
                normals: seq![],
                current: None,
                triangles: seq![],
                faces: 0,
            },
        )
    } else {
        match obj_read_lines(lines.drop_last(), store, random) {
            Ok(st) => obj_step(st, lines.last(), store, random),
            Err(e) => Err(e),
        }
    }
}

/// The mesh that the OBJ text `s` describes, with materials from `store`,
/// the `k`-th face drawn without material taking colour `random[k]`; or why
/// it is rejected.
pub open spec fn parse_obj_spec(
    s: Seq<char>,
    store: Map<(Seq<char>, Seq<char>), MaterialView>,
    random: Seq<Color>,
) -> Result<ObjModelView, ObjError> {
    match obj_read_lines(text_lines(s), store, random) {
        Ok(st) => Ok(ObjModelView { vertices: st.vertices, normals: st.normals, triangles: st.triangles }),
        Err(e) => Err(e),
    }
}

proof fn lemma_obj_error_persists(
    lines: Seq<Seq<Seq<char>>>,
    k: int,
    store: Map<(Seq<char>, Seq<char>), MaterialView>,
    random: Seq<Color>,
)
    requires
        0 <= k <= lines.len(),
        obj_read_lines(lines.take(k), store, random) is Err,
    ensures
        obj_read_lines(lines, store, random) == obj_read_lines(lines.take(k), store, random),
    decreases lines.len() - k,
{
    if k < lines.len() {
        assert(lines.take(k + 1).drop_last() =~= lines.take(k));
        lemma_obj_error_persists(lines, k + 1, store, random);
    } else {
        assert(lines.take(k) =~= lines);
    }
}

proof fn lemma_obj_step_faces_grow(
    st: ObjState,
    t: Seq<Seq<char>>,
    store: Map<(Seq<char>, Seq<char>), MaterialView>,
    random: Seq<Color>,
)
    requires
        obj_step(st, t, store, random) is Ok,
    ensures
        obj_step(st, t, store, random)->Ok_0.faces >= st.faces,
        obj_step(st, t, store, random)->Ok_0.faces > st.faces ==> (!is_blank_or_comment(t) && t[0]
            == face_word() && t[0] != mtllib_word() && t[0] != usemtl_word() && t[0] != vertex_word()
            && t[0] != normal_word() && obj_step(st, t, store, random)->Ok_0.faces == st.faces + 1),
{
}

/// Drawing more random colours than the faces read so far use changes
/// nothing of what has been read.
proof fn lemma_obj_read_lines_random_prefix(
    lines: Seq<Seq<Seq<char>>>,
    store: Map<(Seq<char>, Seq<char>), MaterialView>,
    r1: Seq<Color>,
    r2: Seq<Color>,
)
    requires
        r1.len() <= r2.len(),
        forall|k: int| 0 <= k < r1.len() ==> r1[k] == r2[k],
        obj_read_lines(lines, store, r1) is Ok,
        obj_read_lines(lines, store, r1)->Ok_0.faces <= r1.len(),
    ensures
        obj_read_lines(lines, store, r2) == obj_read_lines(lines, store, r1),
    decreases lines.len(),
{
    if lines.len() > 0 {
        let prev = obj_read_lines(lines.drop_last(), store, r1);
        assert(prev is Ok);
        let st = prev->Ok_0;
        lemma_obj_step_faces_grow(st, lines.last(), store, r1);
        lemma_obj_read_lines_random_prefix(lines.drop_last(), store, r1, r2);
        if st.faces < r1.len() {
            assert(r1[st.faces as int] == r2[st.faces as int]);
        }
    }
}

/// The views of a sequence of strings.
pub open spec fn string_views(v: Seq<String>) -> Seq<Seq<char>> {
    v.map_values(|s: String| s@)
}

fn find_material_exec(files: &Vec<String>, store: &MaterialStore, name: &String) -> (m: Option<Material>)
    ensures
        optional_material_view(m) == find_material(string_views(files@), store@, name@),
{
    let ghost fs = string_views(files@);
    let mut i: usize = 0;
    assert(fs.skip(0) =~= fs);
    while i < files.len()
        invariant
            i <= files@.len(),
            fs == string_views(files@),
            find_material(fs.skip(i as int), store@, name@) == find_material(fs, store@, name@),
        decreases files@.len() - i,
    {
        let ghost rest = fs.skip(i as int);
        assert(rest[0] == files@[i as int]@);
        assert(rest.skip(1) =~= fs.skip(i + 1));
        match store.get(files[i].as_str(), name.as_str()) {
            Some(material) => {
                return Some(material.duplicate());
            },
            None => {},
        }
        i = i + 1;
    }
    assert(fs.skip(i as int) =~= seq![]);
    None
}

fn line_coords_exec(t: &Vec<Vec<char>>) -> (c: Option<(String, String, String)>)
    requires
        t@.len() >= 1,
    ensures
        match c {
            Some(c) => line_coords(char_seqs(t@)) == Some((c.0@, c.1@, c.2@)),
            None => line_coords(char_seqs(t@)) is None,
        },
{
    let floats = float_tokens_exec(t, 1);
    if floats.len() < 3 {
        return None;
    }
    proof {
        assert(char_seqs(floats@)[0] == floats@[0]@);
        assert(char_seqs(floats@)[1] == floats@[1]@);
        assert(char_seqs(floats@)[2] == floats@[2]@);
    }
    Some(
        (
            string_from_chars(floats[0].as_slice()),
            string_from_chars(floats[1].as_slice()),
            string_from_chars(floats[2].as_slice()),
        ),
    )
}

/// Parses the Wavefront OBJ mesh `file_contents`, whose materials come from
/// the libraries filed in `material_store`. A face drawn without material
/// gets a random colour, one per face; apart from those colours the mesh is
/// exactly what `parse_obj_spec` describes.
pub fn load_model(file_contents: &str, material_store: &MaterialStore) -> (model: Result<ObjModel, ObjError>)
    ensures
        exists|random: Seq<Color>|
            match model {
                Ok(m) => #[trigger] parse_obj_spec(file_contents@, material_store@, random) == Ok::<
                    ObjModelView,
                    ObjError,
                >(m@),
                Err(e) => parse_obj_spec(file_contents@, material_store@, random) == Err::<
                    ObjModelView,
                    ObjError,
                >(e),
            },
{
    let lines = tokenize_lines(file_contents);
    let ghost all = token_lines(lines@);
    let mtllib = ['m', 't', 'l', 'l', 'i', 'b'];
    let usemtl = ['u', 's', 'e', 'm', 't', 'l'];
    let v = ['v'];
    let vn = ['v', 'n'];
    let f = ['f'];
    assert(mtllib@ =~= mtllib_word());
    assert(usemtl@ =~= usemtl_word());
    assert(v@ =~= vertex_word());
    assert(vn@ =~= normal_word());
    assert(f@ =~= face_word());
    let mut material_file_names: Vec<String> = Vec::new();
    let mut vertices: Vec<(String, String, String)> = Vec::new();
    let mut normals: Vec<(String, String, String)> = Vec::new();
    let mut current_material: Option<Material> = None;
    let mut triangles: Vec<ObjTriangle> = Vec::new();
    let ghost mut random: Seq<Color> = seq![];
    let mut i: usize = 0;
    assert(all.take(0) =~= seq![]);
    assert(string_views(material_file_names@) =~= seq![]);
    assert(coords_views(vertices@) =~= seq![]);
    assert(coords_views(normals@) =~= seq![]);
    assert(triangle_views(triangles@) =~= seq![]);
    while i < lines.len()
        invariant
            i <= lines@.len(),
            all == token_lines(lines@),
            all == text_lines(file_contents@),
            mtllib@ == mtllib_word(),
            usemtl@ == usemtl_word(),
            v@ == vertex_word(),
            vn@ == normal_word(),
            f@ == face_word(),
            obj_read_lines(all.take(i as int), material_store@, random) == Ok::<ObjState, ObjError>(
                ObjState {
                    files: string_views(material_file_names@),
                    vertices: coords_views(vertices@),
                    normals: coords_views(normals@),
                    current: optional_material_view(current_material),
                    triangles: triangle_views(triangles@),
                    faces: random.len(),
                },
            ),
        decreases lines@.len() - i,
    {
        let ghost prefix = all.take(i as int);
        let ghost next = all.take(i + 1);
        let ghost st = obj_read_lines(prefix, material_store@, random)->Ok_0;
        let t = &lines[i];
        let ghost tv = char_seqs(t@);
        proof {
            assert(tv == all[i as int]);
            assert(next.drop_last() =~= prefix);
            assert(next.last() == tv);
        }
        if blank_or_comment(t) {
        } else if is_word(t[0].as_slice(), mtllib.as_slice()) {
            if t.len() < 2 {
                proof {
                    lemma_obj_error_persists(all, i + 1, material_store@, random);
                    assert(parse_obj_spec(file_contents@, material_store@, random) == Err::<ObjModelView, ObjError>(ObjError::MissingFileName));
                }
                return Err(ObjError::MissingFileName);
            }
            material_file_names.push(string_from_chars(t[1].as_slice()));
            proof {
                assert(string_views(material_file_names@) =~= st.files.push(tv[1]));
            }
        } else if is_word(t[0].as_slice(), usemtl.as_slice()) {
            if t.len() < 2 {
                proof {
                    lemma_obj_error_persists(all, i + 1, material_store@, random);
                    assert(parse_obj_spec(file_contents@, material_store@, random) == Err::<ObjModelView, ObjError>(ObjError::MissingMaterialName));
                }
                return Err(ObjError::MissingMaterialName);
            }
            let name = string_from_chars(t[1].as_slice());
            match find_material_exec(&material_file_names, material_store, &name) {
                Some(material) => {
                    current_material = Some(material);
                },
                None => {
                    proof {
                        lemma_obj_error_persists(all, i + 1, material_store@, random);
                        assert(parse_obj_spec(file_contents@, material_store@, random) == Err::<ObjModelView, ObjError>(ObjError::UnknownMaterial));
                    }
                    return Err(ObjError::UnknownMaterial);
                },
            }
        } else if is_word(t[0].as_slice(), v.as_slice()) {
            match line_coords_exec(t) {
                Some(c) => {
                    vertices.push(c);
                    proof {
                        assert(coords_views(vertices@) =~= st.vertices.push((c.0@, c.1@, c.2@)));
                    }
                },
                None => {
                    proof {
                        lemma_obj_error_persists(all, i + 1, material_store@, random);
                        assert(parse_obj_spec(file_contents@, material_store@, random) == Err::<ObjModelView, ObjError>(ObjError::MalformedVertex));
                    }
                    return Err(ObjError::MalformedVertex);
                },
            }
        } else if is_word(t[0].as_slice(), vn.as_slice()) {
            match line_coords_exec(t) {
                Some(c) => {
                    normals.push(c);
                    proof {
                        assert(coords_views(normals@) =~= st.normals.push((c.0@, c.1@, c.2@)));
                    }
                },
                None => {
                    proof {
                        lemma_obj_error_persists(all, i + 1, material_store@, random);
                        assert(parse_obj_spec(file_contents@, material_store@, random) == Err::<ObjModelView, ObjError>(ObjError::MalformedNormal));
                    }
                    return Err(ObjError::MalformedNormal);
                },
            }
        } else if is_word(t[0].as_slice(), f.as_slice()) {
            // Use color of material if it exists, otherwise use random color
            let color = random_color();
            let ghost old_random = random;
            proof {
                random = random.push(color);
                lemma_obj_read_lines_random_prefix(prefix, material_store@, old_random, random);
                assert(random[st.faces as int] == color);
            }
            match parse_face(t, 1, &current_material, vertices.len(), normals.len(), color) {
                Ok(mut face_triangles) => {
                    let ghost ft = face_triangles@;
                    let ghost before = triangles@;
                    triangles.append(&mut face_triangles);
                    proof {
                        assert(triangles@ == before + ft);
                        assert(triangle_views(triangles@) =~= triangle_views(before) + triangle_views(ft));
                    }
                },
                Err(e) => {
                    proof {
                        lemma_obj_error_persists(all, i + 1, material_store@, random);
                        assert(parse_obj_spec(file_contents@, material_store@, random) == Err::<ObjModelView, ObjError>(e));
                    }
                    return Err(e);
                },
            }
        }
        i = i + 1;
    }
    assert(all.take(i as int) =~= all);
    let model = ObjModel { vertices, normals, triangles };
    assert(parse_obj_spec(file_contents@, material_store@, random) == Ok::<ObjModelView, ObjError>(model@));
    Ok(model)
}


/// Whether every triangle of `ts` refers to one of `nv` vertices and one of
/// `nn` normals.
pub open spec fn triangles_in_range(ts: Seq<TriangleView>, nv: nat, nn: nat) -> bool {
    forall|i: int|
        0 <= i < ts.len() ==> {
            let t = #[trigger] ts[i];
            &&& t.vertices[0] < nv
            &&& t.vertices[1] < nv
            &&& t.vertices[2] < nv
            &&& t.normal < nn
        }
}

/// A face of `n` vertices is cut into `n - 2` triangles that share its first
/// vertex, its normal and its colour, and that refer only to vertices and
/// normals read before the face.
pub proof fn lemma_face_fan(
    tokens: Seq<Seq<char>>,
    current: Option<MaterialView>,
    nv: nat,
    nn: nat,
    random: Color,
)
    requires
        face_spec(tokens, current, nv, nn, random) is Ok,
    ensures
        ({
            let ts = face_spec(tokens, current, nv, nn, random)->Ok_0;
            &&& ts.len() == tokens.len() - 2
            &&& triangles_in_range(ts, nv, nn)
            &&& forall|i: int|
                0 <= i < ts.len() ==> (#[trigger] ts[i]).vertices[0] == ts[0].vertices[0] && ts[i].normal
                    == ts[0].normal && ts[i].color == ts[0].color
        }),
{
    lemma_face_refs_len(tokens);
}

/// Every triangle of a mesh refers to one of its vertices and one of its
/// normals.
pub proof fn lemma_mesh_triangles_in_range(
    lines: Seq<Seq<Seq<char>>>,
    store: Map<(Seq<char>, Seq<char>), MaterialView>,
    random: Seq<Color>,
)
    requires
        obj_read_lines(lines, store, random) is Ok,
    ensures
        ({
            let st = obj_read_lines(lines, store, random)->Ok_0;
            triangles_in_range(st.triangles, st.vertices.len(), st.normals.len())
        }),
    decreases lines.len(),
{
    if lines.len() > 0 {
        let prev = obj_read_lines(lines.drop_last(), store, random);
        assert(prev is Ok);
        lemma_mesh_triangles_in_range(lines.drop_last(), store, random);
        let st = prev->Ok_0;
        let t = lines.last();
        let next = obj_read_lines(lines, store, random)->Ok_0;
        if !is_blank_or_comment(t) && t[0] != mtllib_word() && t[0] != usemtl_word() && t[0] != vertex_word()
            && t[0] != normal_word() && t[0] == face_word() {
            let r = random[st.faces as int];
            lemma_face_fan(t.skip(1), st.current, st.vertices.len(), st.normals.len(), r);
            let ts = face_spec(t.skip(1), st.current, st.vertices.len(), st.normals.len(), r)->Ok_0;
            assert(next.triangles == st.triangles + ts);
            assert forall|i: int| 0 <= i < next.triangles.len() implies {
                let tr = #[trigger] next.triangles[i];
                &&& tr.vertices[0] < next.vertices.len()
                &&& tr.vertices[1] < next.vertices.len()
                &&& tr.vertices[2] < next.vertices.len()
                &&& tr.normal < next.normals.len()
            } by {
                if i >= st.triangles.len() {
                    assert(next.triangles[i] == ts[i - st.triangles.len()]);
                }
            }
        }
    }
}

/// Every triangle of a parsed mesh refers to one of its vertices and one of
/// its normals.
pub proof fn lemma_parsed_mesh_in_range(
    s: Seq<char>,
    store: Map<(Seq<char>, Seq<char>), MaterialView>,
    random: Seq<Color>,
)
    requires
        parse_obj_spec(s, store, random) is Ok,
    ensures
        ({
            let m = parse_obj_spec(s, store, random)->Ok_0;
            triangles_in_range(m.triangles, m.vertices.len(), m.normals.len())
        }),
{
    lemma_mesh_triangles_in_range(text_lines(s), store, random);
}

/// A face drawn with a material takes the material's diffuse colour as it
/// stands: its red, green and blue values in that order; a face drawn
/// without one takes the colour it is given.
pub proof fn lemma_face_color_is_material_kd(m: MaterialView, r: Seq<char>, g: Seq<char>, b: Seq<char>, random: Color)
    ensures
        m.kd == Some((r, g, b)) ==> face_color_spec(Some(m), random) == Ok::<FaceColorView, ObjError>(
            FaceColorView::Diffuse((r, g, b)),
        ),
        m.kd is None ==> face_color_spec(Some(m), random) == Err::<FaceColorView, ObjError>(
            ObjError::MaterialWithoutKd,
        ),
        face_color_spec(None, random) == Ok::<FaceColorView, ObjError>(FaceColorView::Fixed(random)),
{
}

/// Every triangle of a face drawn with a material whose diffuse colour is
/// `(r, g, b)` has that colour, channel for channel.
pub proof fn lemma_face_triangles_take_material_kd(
    tokens: Seq<Seq<char>>,
    m: MaterialView,
    nv: nat,
    nn: nat,
    random: Color,
    r: Seq<char>,
    g: Seq<char>,
    b: Seq<char>,
)
    requires
        m.kd == Some((r, g, b)),
        face_spec(tokens, Some(m), nv, nn, random) is Ok,
    ensures
        forall|i: int|
            0 <= i < face_spec(tokens, Some(m), nv, nn, random)->Ok_0.len() ==> (#[trigger] face_spec(
                tokens,
                Some(m),
                nv,
                nn,
                random,
            )->Ok_0[i]).color == FaceColorView::Diffuse((r, g, b)),
{
    lemma_face_color_is_material_kd(m, r, g, b, random);
}

/// Whether a line with tokens `t` is one of the directives a mesh is read
/// from: `mtllib`, `usemtl`, `v`, `vn` or `f`.
pub open spec fn is_obj_directive(t: Seq<Seq<char>>) -> bool {
    &&& t.len() > 0
    &&& {
        ||| t[0] == seq!['m', 't', 'l', 'l', 'i', 'b']
        ||| t[0] == seq!['u', 's', 'e', 'm', 't', 'l']
        ||| t[0] == seq!['v']
        ||| t[0] == seq!['v', 'n']
        ||| t[0] == seq!['f']
    }
}

/// The lines of `lines` that are mesh directives, in order.
pub open spec fn obj_directives(lines: Seq<Seq<Seq<char>>>) -> Seq<Seq<Seq<char>>>
    decreases lines.len(),
{
    if lines.len() == 0 {
        lines
    } else if is_obj_directive(lines.last()) {
        obj_directives(lines.drop_last()).push(lines.last())
    } else {
        obj_directives(lines.drop_last())
    }
}

/// The number of lines of `lines` whose first token is `word`.
pub open spec fn keyword_count(lines: Seq<Seq<Seq<char>>>, word: Seq<char>) -> nat
    decreases lines.len(),
{
    if lines.len() == 0 {
        0
    } else {
        keyword_count(lines.drop_last(), word) + if lines.last().len() > 0 && lines.last()[0] == word {
            1nat
        } else {
            0nat
        }
    }
}

/// A line that is no mesh directive (a blank or comment line, or one with
/// any other keyword, such as `vt`, `s` or `o`) changes nothing.
pub proof fn lemma_other_obj_line_ignored(
    lines: Seq<Seq<Seq<char>>>,
    t: Seq<Seq<char>>,
    store: Map<(Seq<char>, Seq<char>), MaterialView>,
    random: Seq<Color>,
)
    requires
        !is_obj_directive(t),
    ensures
        obj_read_lines(lines.push(t), store, random) == obj_read_lines(lines, store, random),
{
    assert(lines.push(t).drop_last() =~= lines);
    assert(lines.push(t).last() == t);
}

/// A mesh reads the same once every line that is no directive is removed:
/// texture coordinates, groups, smoothing and the like are ignored.
pub proof fn lemma_obj_reads_only_directives(
    lines: Seq<Seq<Seq<char>>>,
    store: Map<(Seq<char>, Seq<char>), MaterialView>,
    random: Seq<Color>,
)
    ensures
        obj_read_lines(obj_directives(lines), store, random) == obj_read_lines(lines, store, random),
    decreases lines.len(),
{
    if lines.len() > 0 {
        lemma_obj_reads_only_directives(lines.drop_last(), store, random);
        let sub = obj_directives(lines.drop_last());
        let t = lines.last();
        assert(lines.drop_last().push(t) =~= lines);
        if is_obj_directive(t) {
            assert(obj_directives(lines) == sub.push(t));
            assert(sub.push(t).drop_last() =~= sub);
        } else {
            assert(obj_directives(lines) == sub);
            lemma_other_obj_line_ignored(lines.drop_last(), t, store, random);
        }
    }
}

/// A mesh that is read has one vertex per `v` line, one normal per `vn`
/// line, one material library per `mtllib` line and one face per `f` line.
pub proof fn lemma_obj_counts(
    lines: Seq<Seq<Seq<char>>>,
    store: Map<(Seq<char>, Seq<char>), MaterialView>,
    random: Seq<Color>,
)
    requires
        obj_read_lines(lines, store, random) is Ok,
    ensures
        ({
            let st = obj_read_lines(lines, store, random)->Ok_0;
            &&& st.vertices.len() == keyword_count(lines, seq!['v'])
            &&& st.normals.len() == keyword_count(lines, seq!['v', 'n'])
            &&& st.files.len() == keyword_count(lines, seq!['m', 't', 'l', 'l', 'i', 'b'])
            &&& st.faces == keyword_count(lines, seq!['f'])
        }),
    decreases lines.len(),
{
    if lines.len() > 0 {
        let prev = obj_read_lines(lines.drop_last(), store, random);
        assert(prev is Ok);
        lemma_obj_counts(lines.drop_last(), store, random);
        let t = lines.last();
        if t.len() > 0 {
            let k = t[0];
            assert(seq!['v'].len() == 1 && seq!['f'].len() == 1 && seq!['v', 'n'].len() == 2);
            assert(seq!['m', 't', 'l', 'l', 'i', 'b'].len() == 6 && seq!['u', 's', 'e', 'm', 't', 'l'].len() == 6);
            if k == seq!['v'] {
                assert(k != seq!['v', 'n']);
                assert(k != seq!['m', 't', 'l', 'l', 'i', 'b']);
                assert(k != seq!['u', 's', 'e', 'm', 't', 'l']);
                assert(k[0] == 'v');
                assert(k != seq!['f']);
                assert(k[0] != '#');
            } else if k == seq!['v', 'n'] {
                assert(k != seq!['m', 't', 'l', 'l', 'i', 'b']);
                assert(k != seq!['u', 's', 'e', 'm', 't', 'l']);
                assert(k != seq!['f']);
                assert(k[0] != '#');
            } else if k == seq!['f'] {
                assert(k != seq!['m', 't', 'l', 'l', 'i', 'b']);
                assert(k != seq!['u', 's', 'e', 'm', 't', 'l']);
                assert(k[0] == 'f');
                assert(k[0] != '#');
            } else if k == seq!['m', 't', 'l', 'l', 'i', 'b'] {
                assert(k != seq!['u', 's', 'e', 'm', 't', 'l']);
                assert(k[0] != '#');
            }
        }
    }
}

} // verus!
