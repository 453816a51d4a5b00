//! The mesh description format and the fan triangulation of its faces.
//!
//! A description is text of at least five lines separated by `\n`:
//! the number of faces; the number of vertices of each face; the vertex
//! indices of all faces, face after face; the vertex coordinates; the vertex
//! normals. The first line is read as it stands; lines two to five are
//! trimmed and split at single spaces into fields. The first three lines are
//! unsigned integers and are read here; the coordinate and normal fields are
//! handed on as text.
use vstd::prelude::*;
use crate::text::{parse_usize, split_bytes, split_on, trim, trim_bytes, usize_field, views};

verus! {

/// Separates the lines of a description.
pub const NEWLINE: u8 = 10;

/// Separates the fields of a line.
pub const SPACE: u8 = 32;

/// Why a mesh description was refused.
#[derive(Clone, Copy, Debug, PartialEq, Eq, Structural)]
pub enum GeoError {
    /// Fewer than five lines.
    MissingLines,
    /// The first line is not an unsigned integer.
    InvalidFaceCount,
    /// A field of the face size line is not an unsigned integer.
    InvalidFaceSizes,
    /// A field of the vertex index line is not an unsigned integer.
    InvalidVertexIndices,
}

/// The fields of a line: the trimmed line split at single spaces.
pub open spec fn line_fields(line: Seq<u8>) -> Seq<Seq<u8>> {
    split_on(trim(line), SPACE)
}

/// The values of a line of unsigned integers, if every field is one.
pub open spec fn index_list(line: Seq<u8>) -> Option<Seq<usize>> {
    let f = line_fields(line);
    if forall|i: int| 0 <= i < f.len() ==> (#[trigger] usize_field(f[i])) is Some {
        Some(f.map_values(|x: Seq<u8>| usize_field(x)->Some_0))
    } else {
        None
    }
}

/// The position, in the vertex index list, of the first vertex of face `i`.
pub open spec fn face_start(sizes: Seq<usize>, i: int) -> int
    decreases i,
{
    if i <= 0 || i > sizes.len() {
        0
    } else {
        face_start(sizes, i - 1) + sizes[i - 1]
    }
}

/// The first `num_face` faces each have two vertices or more, and the vertex
/// index list holds all their vertices.
pub open spec fn faces_fit(num_face: int, sizes: Seq<usize>, n_indices: int) -> bool {
    &&& num_face <= sizes.len()
    &&& forall|i: int| 0 <= i < num_face ==> #[trigger] sizes[i] >= 2
    &&& face_start(sizes, num_face) <= n_indices
}

/// What a mesh description holds.
pub ghost struct GeoModel {
    pub num_face: nat,
    pub face_sizes: Seq<usize>,
    pub vertex_indices: Seq<usize>,
    pub coordinates: Seq<Seq<u8>>,
    pub normals: Seq<Seq<u8>>,
}

/// A mesh description as the text states it.
pub open spec fn geo_from_text(text: Seq<u8>) -> Result<GeoModel, GeoError> {
    let lines = split_on(text, NEWLINE);
    if lines.len() < 5 {
        Err(GeoError::MissingLines)
    } else if usize_field(lines[0]) is None {
        Err(GeoError::InvalidFaceCount)
    } else if index_list(lines[1]) is None {
        Err(GeoError::InvalidFaceSizes)
    } else if index_list(lines[2]) is None {
        Err(GeoError::InvalidVertexIndices)
    } else {
        Ok(
            GeoModel {
                num_face: usize_field(lines[0])->Some_0 as nat,
                face_sizes: index_list(lines[1])->Some_0,
                vertex_indices: index_list(lines[2])->Some_0,
                coordinates: line_fields(lines[3]),
                normals: line_fields(lines[4]),
            },
        )
    }
}

/// A parsed mesh description.
pub struct GeoData {
    num_face: usize,
    face_index_array: Vec<usize>,
    vertex_index_array: Vec<usize>,
    coordinate_fields: Vec<Vec<u8>>,
    normal_fields: Vec<Vec<u8>>,
}

impl View for GeoData {
    type V = GeoModel;

    closed spec fn view(&self) -> GeoModel {
        GeoModel {
            num_face: self.num_face as nat,
            face_sizes: self.face_index_array@,
            vertex_indices: self.vertex_index_array@,
            coordinates: views(self.coordinate_fields@),
            normals: views(self.normal_fields@),
        }
    }
}

impl GeoData {
    pub fn num_face(&self) -> (r: usize)
        ensures
            r == self@.num_face,
    {
        self.num_face
    }

    pub fn face_index_array(&self) -> (r: &Vec<usize>)
        ensures
            r@ == self@.face_sizes,
    {
        &self.face_index_array
    }

    pub fn vertex_index_array(&self) -> (r: &Vec<usize>)
        ensures
            r@ == self@.vertex_indices,
    {
        &self.vertex_index_array
    }

    /// The fields of the coordinate line, three to a vertex.
    pub fn coordinate_fields(&self) -> (r: &Vec<Vec<u8>>)
        ensures
            views(r@) == self@.coordinates,
    {
        &self.coordinate_fields
    }

    /// The fields of the normal line, three to a normal.
    pub fn normal_fields(&self) -> (r: &Vec<Vec<u8>>)
        ensures
            views(r@) == self@.normals,
    {
        &self.normal_fields
    }
}

/// Reads a line of unsigned integers separated by single spaces.
pub fn parse_index_line(line: &[u8]) -> (r: Option<Vec<usize>>)
    ensures
        match r {
            Some(v) => index_list(line@) == Some(v@),
            None => index_list(line@) is None,
        },
{
    let trimmed = trim_bytes(line);
    let fields = split_bytes(trimmed.as_slice(), SPACE);
    let ghost f = line_fields(line@);
    assert(views(fields@) == f);
    let mut values: Vec<usize> = Vec::new();
    let mut i: usize = 0;
    while i < fields.len()
        invariant
            i <= fields@.len() == f.len(),
            views(fields@) == f,
            f == line_fields(line@),
            values@.len() == i,
            forall|j: int| 0 <= j < i ==> (#[trigger] usize_field(f[j])) == Some(values@[j]),
        decreases fields@.len() - i,
    {
        assert(fields@[i as int]@ == f[i as int]);
        match parse_usize(fields[i].as_slice()) {
            Some(v) => {
                values.push(v);
            },
            None => {
                assert(usize_field(f[i as int]) is None);
                return None;
            },
        }
        i += 1;
    }
    assert(values@ =~= f.map_values(|x: Seq<u8>| usize_field(x)->Some_0));
    Some(values)
}

pub proof fn lemma_face_start_monotone(sizes: Seq<usize>, i: int, j: int)
    requires
        0 <= i <= j <= sizes.len(),
    ensures
        face_start(sizes, i) <= face_start(sizes, j),
    decreases j - i,
{
    if i < j {
        lemma_face_start_monotone(sizes, i, j - 1);
    }
}

/// Whether the first `num_face` faces fit the vertex index list.
fn check_faces(num_face: usize, sizes: &Vec<usize>, n_indices: usize) -> (r: bool)
    ensures
        r == faces_fit(num_face as int, sizes@, n_indices as int),
{
    if num_face > sizes.len() {
        return false;
    }
    let mut k: usize = 0;
    let mut i: usize = 0;
    while i < num_face
        invariant
            i <= num_face <= sizes@.len(),
            k == face_start(sizes@, i as int) <= n_indices,
            forall|j: int| 0 <= j < i ==> #[trigger] sizes@[j] >= 2,
        decreases num_face - i,
    {
        if sizes[i] < 2 {
            return false;
        }
        if sizes[i] > n_indices - k {
            proof {
                lemma_face_start_monotone(sizes@, i + 1, num_face as int);
            }
            return false;
        }
        k = k + sizes[i];
        i += 1;
    }
    true
}

/// Reads a mesh description.
pub fn parse_geo(text: &[u8]) -> (r: Result<GeoData, GeoError>)
    ensures
        match r {
            Ok(g) => geo_from_text(text@) == Ok::<GeoModel, GeoError>(g@),
            Err(e) => geo_from_text(text@) == Err::<GeoModel, GeoError>(e),
        },
{
    let lines = split_bytes(text, NEWLINE);
    let ghost ls = split_on(text@, NEWLINE);
    assert(views(lines@) == ls);
    if lines.len() < 5 {
        return Err(GeoError::MissingLines);
    }
    assert(lines@[0]@ == ls[0] && lines@[1]@ == ls[1] && lines@[2]@ == ls[2]);
    assert(lines@[3]@ == ls[3] && lines@[4]@ == ls[4]);
    let num_face = match parse_usize(lines[0].as_slice()) {
        Some(n) => n,
        None => {
            return Err(GeoError::InvalidFaceCount);
        },
    };
    let face_index_array = match parse_index_line(lines[1].as_slice()) {
        Some(v) => v,
        None => {
            return Err(GeoError::InvalidFaceSizes);
        },
    };
    let vertex_index_array = match parse_index_line(lines[2].as_slice()) {
        Some(v) => v,
        None => {
            return Err(GeoError::InvalidVertexIndices);
        },
    };
    let coordinate_line = trim_bytes(lines[3].as_slice());
    let coordinate_fields = split_bytes(coordinate_line.as_slice(), SPACE);
    let normal_line = trim_bytes(lines[4].as_slice());
    let normal_fields = split_bytes(normal_line.as_slice(), SPACE);
    let g = GeoData {
        num_face,
        face_index_array,
        vertex_index_array,
        coordinate_fields,
        normal_fields,
    };
    Ok(g)
}

/// The fan of a face whose first vertex sits at position `k` of the vertex
/// index list: its first `m` triangles, each as three vertex indices, the
/// triangle `j` (from 1) joining positions `k`, `k + j` and `k + j + 1`.
pub open spec fn face_fan(indices: Seq<usize>, k: int, m: int) -> Seq<usize>
    decreases m,
{
    if m <= 0 {
        Seq::empty()
    } else {
        face_fan(indices, k, m - 1) + seq![indices[k], indices[k + m], indices[k + m + 1]]
    }
}

/// The fan triangulations of the first `f` faces, one after the other: a
/// face of `n` vertices gives `n - 2` triangles that share its first vertex.
pub open spec fn fan_triangulation(sizes: Seq<usize>, indices: Seq<usize>, f: int) -> Seq<usize>
    decreases f,
{
    if f <= 0 {
        Seq::empty()
    } else {
        fan_triangulation(sizes, indices, f - 1) + face_fan(
            indices,
            face_start(sizes, f - 1),
            sizes[f - 1] - 2,
        )
    }
}

/// Splits every face into a fan of triangles and lists their vertex indices,
/// three to a triangle; `None` where the faces do not fit the face size and
/// vertex index lists.
pub fn create_trianglemesh(geo_data: &GeoData) -> (r: Option<Vec<usize>>)
    ensures
        match r {
            Some(t) => faces_fit(
                geo_data@.num_face as int,
                geo_data@.face_sizes,
                geo_data@.vertex_indices.len() as int,
            ) && t@ == fan_triangulation(
                geo_data@.face_sizes,
                geo_data@.vertex_indices,
                geo_data@.num_face as int,
            ),
            None => !faces_fit(
                geo_data@.num_face as int,
                geo_data@.face_sizes,
                geo_data@.vertex_indices.len() as int,
            ),
        },
{
    if !check_faces(geo_data.num_face, &geo_data.face_index_array, geo_data.vertex_index_array.len()) {
        return None;
    }
    let num_face = geo_data.num_face;
    let sizes = &geo_data.face_index_array;
    let indices = &geo_data.vertex_index_array;
    let n_indices = indices.len();
    let mut triangle_index_array: Vec<usize> = Vec::new();
    let mut k: usize = 0;
    let mut i: usize = 0;
    while i < num_face
        invariant
            faces_fit(num_face as int, sizes@, indices@.len() as int),
            i <= num_face,
            n_indices == indices@.len(),
            k == face_start(sizes@, i as int),
            triangle_index_array@ == fan_triangulation(sizes@, indices@, i as int),
        decreases num_face - i,
    {
        proof {
            lemma_face_start_monotone(sizes@, i + 1, num_face as int);
        }
        let n = sizes[i];
        assert(face_start(sizes@, i + 1) == k + n);
        let ghost done = triangle_index_array@;
        let mut j: usize = 0;
        while j < n - 2
            invariant
                i < num_face <= sizes@.len(),
                n == sizes@[i as int] >= 2,
                k + n <= indices@.len() == n_indices,
                j <= n - 2,
                triangle_index_array@ == done + face_fan(indices@, k as int, j as int),
            decreases n - 2 - j,
        {
            triangle_index_array.push(indices[k]);
            triangle_index_array.push(indices[k + j + 1]);
            triangle_index_array.push(indices[k + j + 2]);
            j += 1;
            assert(triangle_index_array@ =~= done + face_fan(indices@, k as int, j as int));
        }
        k = k + n;
        i += 1;
    }
    Some(triangle_index_array)
}

/// Every index of the whole triangles in `indices` names one of `n` vertices.
pub open spec fn indices_in_range(n: nat, indices: Seq<usize>) -> bool {
    forall|i: int| 0 <= i < (indices.len() / 3) * 3 ==> #[trigger] indices[i] < n
}

/// The triangles that `indices` names, three indices to a triangle; indices
/// after the last whole triangle are ignored.
pub open spec fn triangles_of<P>(vertices: Seq<P>, indices: Seq<usize>) -> Seq<(P, P, P)> {
    Seq::new(
        (indices.len() / 3) as nat,
        |t: int|
            (
                vertices[indices[3 * t] as int],
                vertices[indices[3 * t + 1] as int],
                vertices[indices[3 * t + 2] as int],
            ),
    )
}

/// Looks up the corners of each triangle of a triangle index list, or gives
/// `None` where an index names no vertex.
pub fn create_triangles<P: Copy>(vertex_array: &Vec<P>, triangle_index_array: &Vec<usize>) -> (r:
    Option<Vec<(P, P, P)>>)
    ensures
        match r {
            Some(t) => indices_in_range(vertex_array@.len(), triangle_index_array@) && t@
                == triangles_of(vertex_array@, triangle_index_array@),
            None => !indices_in_range(vertex_array@.len(), triangle_index_array@),
        },
{
    let n = vertex_array.len();
    let len = triangle_index_array.len();
    let ghost idx = triangle_index_array@;
    let ghost whole = (len as int / 3) * 3;
    let mut triangles: Vec<(P, P, P)> = Vec::new();
    let mut m: usize = 0;
    while len - m >= 3
        invariant
            n == vertex_array@.len(),
            len == idx.len(),
            idx == triangle_index_array@,
            whole == (len as int / 3) * 3,
            m == 3 * triangles@.len(),
            m <= len,
            m <= whole,
            forall|i: int| 0 <= i < m ==> #[trigger] idx[i] < n,
            forall|t: int|
                0 <= t < triangles@.len() ==> #[trigger] triangles@[t] == (
                    vertex_array@[idx[3 * t] as int],
                    vertex_array@[idx[3 * t + 1] as int],
                    vertex_array@[idx[3 * t + 2] as int],
                ),
        decreases len - m,
    {
        assert(m + 3 <= whole) by (nonlinear_arith)
            requires
                m + 3 <= len,
                m == 3 * triangles@.len(),
                whole == (len as int / 3) * 3,
        ;
        let a = triangle_index_array[m];
        let b = triangle_index_array[m + 1];
        let c = triangle_index_array[m + 2];
        if a >= n {
            return None;
        }
        if b >= n {
            return None;
        }
        if c >= n {
            return None;
        }
        let corners: (P, P, P) = (vertex_array[a], vertex_array[b], vertex_array[c]);
        triangles.push(corners);
        m = m + 3;
    }
    assert(triangles@.len() == len as int / 3) by (nonlinear_arith)
        requires
            m == 3 * triangles@.len(),
            m <= len < m + 3,
    ;
    assert(triangles@ =~= triangles_of(vertex_array@, triangle_index_array@));
    Some(triangles)
}

} // verus!
