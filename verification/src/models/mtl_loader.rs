//! Parsing of MTL material libraries: each `newmtl` starts a material and a
//! `Kd` line gives its diffuse colour.
use vstd::prelude::*;
use crate::text::{
    blank_or_comment, char_seqs, float_tokens, float_tokens_exec, is_blank_or_comment, is_float_literal, is_word,
    string_from_chars, text_lines, token_lines, tokenize_lines,
};

verus! {

/// A material: its name and, when the library gives one, its diffuse colour
/// as the text of its three channel values (each reads as a floating-point
/// number).
#[derive(Debug, Clone)]
pub struct Material {
    pub name: String,
    pub kd: Option<(String, String, String)>,
}

/// The abstract value of a material.
pub struct MaterialView {
    pub name: Seq<char>,
    pub kd: Option<(Seq<char>, Seq<char>, Seq<char>)>,
}

impl View for Material {
    type V = MaterialView;

    open spec fn view(&self) -> MaterialView {
        MaterialView {
            name: self.name@,
            kd: match self.kd {
                Some(kd) => Some((kd.0@, kd.1@, kd.2@)),
                None => None,
            },
        }
    }
}

impl Material {
    /// A copy of this material.
    pub fn duplicate(&self) -> (copy: Material)
        ensures
            copy@ == self@,
    {
        Material {
            name: self.name.clone(),
            kd: match &self.kd {
                Some(kd) => Some((kd.0.clone(), kd.1.clone(), kd.2.clone())),
                None => None,
            },
        }
    }
}

/// The views of a sequence of materials.
pub open spec fn material_views(ms: Seq<Material>) -> Seq<MaterialView> {
    ms.map_values(|m: Material| m@)
}

/// The view of an optional material.
pub open spec fn optional_material_view(m: Option<Material>) -> Option<MaterialView> {
    match m {
        Some(m) => Some(m@),
        None => None,
    }
}

/// The last material of `ms` named `name`, if any.
pub open spec fn lookup_material(ms: Seq<MaterialView>, name: Seq<char>) -> Option<MaterialView>
    decreases ms.len(),
{
    if ms.len() == 0 {
        None
    } else if ms.last().name == name {
        Some(ms.last())
    } else {
        lookup_material(ms.drop_last(), name)
    }
}

/// The materials of `ms` by name, a later material replacing an earlier one
/// of the same name.
pub open spec fn material_map(ms: Seq<MaterialView>) -> Map<Seq<char>, MaterialView> {
    Map::new(|n: Seq<char>| lookup_material(ms, n) is Some, |n: Seq<char>| lookup_material(ms, n)->0)
}

/// Why a material library is rejected.
#[derive(Debug, Clone, Copy, PartialEq, Eq, Structural)]
pub enum MtlError {
    /// A `Kd` line of a material has fewer than three numbers.
    IncompleteKd,
}

/// `newmtl`
pub open spec fn newmtl_word() -> Seq<char> {
    seq!['n', 'e', 'w', 'm', 't', 'l']
}

/// `Kd`
pub open spec fn kd_word() -> Seq<char> {
    seq!['K', 'd']
}

/// The materials finished so far, and the one being read.
pub type MtlState = (Seq<MaterialView>, Option<MaterialView>);

/// The materials `st` with the one being read finished.
pub open spec fn finish_current(st: MtlState) -> Seq<MaterialView> {
    match st.1 {
        Some(m) => st.0.push(m),
        None => st.0,
    }
}

/// Reading the line with tokens `t`: `newmtl` finishes the current material
/// and starts one with the given name (none when the name is missing); `Kd`
/// sets the current material's diffuse colour to the first three numbers on
/// the line, and rejects the library when there are fewer; other lines, and
/// `Kd` with no current material, change nothing.
pub open spec fn mtl_step(st: MtlState, t: Seq<Seq<char>>) -> Option<MtlState> {
    if is_blank_or_comment(t) {
        Some(st)
    } else if t[0] == newmtl_word() {
        Some(
            (
                finish_current(st),
                if t.len() > 1 {
                    Some(MaterialView { name: t[1], kd: None })
                } else {
                    None
                },
            ),
        )
    } else if t[0] == kd_word() {
        match st.1 {
            Some(m) => {
                let f = float_tokens(t.skip(1));
                if f.len() < 3 {
                    None
                } else {
                    Some((st.0, Some(MaterialView { name: m.name, kd: Some((f[0], f[1], f[2])) })))
                }
            },
            None => Some(st),
        }
    } else {
        Some(st)
    }
}

/// The state after reading `lines`, or `None` when a line rejects the library.
pub open spec fn mtl_read_lines(lines: Seq<Seq<Seq<char>>>) -> Option<MtlState>
    decreases lines.len(),
{
    if lines.len() == 0 {
        Some((seq![], None))
    } else {
        match mtl_read_lines(lines.drop_last()) {
            Some(st) => mtl_step(st, lines.last()),
            None => None,
        }
    }
}

/// Once a line rejects the library, the whole library is rejected.
proof fn lemma_rejection_persists(lines: Seq<Seq<Seq<char>>>, k: int)
    requires
        0 <= k <= lines.len(),
        mtl_read_lines(lines.take(k)) is None,
    ensures
        mtl_read_lines(lines) is None,
    decreases lines.len() - k,
{
    if k < lines.len() {
        assert(lines.take(k + 1).drop_last() =~= lines.take(k));
        lemma_rejection_persists(lines, k + 1);
    } else {
        assert(lines.take(k) =~= lines);
    }
}

/// The materials, by name, that the material library `s` defines, or `None`
/// when it is rejected.
pub open spec fn parse_materials_spec(s: Seq<char>) -> Option<Map<Seq<char>, MaterialView>> {
    match mtl_read_lines(text_lines(s)) {
        Some(st) => Some(material_map(finish_current(st))),
        None => None,
    }
}

/// Parses the material library `file_contents`. The materials come in the
/// order they are defined; when two share a name the later one counts.
pub fn parse_materials(file_contents: &str) -> (materials: Result<Vec<Material>, MtlError>)
    ensures
        match materials {
            Ok(ms) => parse_materials_spec(file_contents@) == Some(material_map(material_views(ms@))),
            Err(_) => parse_materials_spec(file_contents@) is None,
        },
{
    let lines = tokenize_lines(file_contents);
    let ghost all = token_lines(lines@);
    let newmtl = ['n', 'e', 'w', 'm', 't', 'l'];
    let kd = ['K', 'd'];
    assert(newmtl@ =~= newmtl_word());
    assert(kd@ =~= kd_word());
    let mut materials: Vec<Material> = Vec::new();
    let mut current: Option<Material> = None;
    let mut i: usize = 0;
    assert(all.take(0) =~= seq![]);
    while i < lines.len()
        invariant
            i <= lines@.len(),
            all == token_lines(lines@),
            all == text_lines(file_contents@),
            newmtl@ == newmtl_word(),
            kd@ == kd_word(),
            mtl_read_lines(all.take(i as int)) == Some(
                (material_views(materials@), optional_material_view(current)),
            ),
        decreases lines@.len() - i,
    {
        let ghost prefix = all.take(i as int);
        let ghost before_ms = materials@;
        let ghost before_cur = current;
        let t = &lines[i];
        let ghost tv = char_seqs(t@);
        assert(tv == all[i as int]);
        if blank_or_comment(t) {
        } else if is_word(t[0].as_slice(), newmtl.as_slice()) {
            if let Some(m) = current.take() {
                materials.push(m);
            }
            if t.len() > 1 {
                current = Some(Material { name: string_from_chars(t[1].as_slice()), kd: None });
            } else {
                current = None;
            }
            proof {
                assert(material_views(materials@) =~= finish_current(
                    (material_views(before_ms), optional_material_view(before_cur)),
                ));
            }
        } else if is_word(t[0].as_slice(), kd.as_slice()) {
            if let Some(m) = current.take() {
                let floats = float_tokens_exec(t, 1);
                proof {
                    assert(char_seqs(t@).skip(1) =~= tv.skip(1));
                }
                if floats.len() < 3 {
                    proof {
                        assert(all.take(i + 1).drop_last() =~= prefix);
                        lemma_rejection_persists(all, i + 1);
                    }
                    return Err(MtlError::IncompleteKd);
                }
                let kd0 = string_from_chars(floats[0].as_slice());
                let kd1 = string_from_chars(floats[1].as_slice());
                let kd2 = string_from_chars(floats[2].as_slice());
                current = Some(Material { name: m.name, kd: Some((kd0, kd1, kd2)) });
            }
        }
        i = i + 1;
        proof {
            assert(all.take(i as int).drop_last() =~= prefix);
        }
    }
    if let Some(m) = current {
        materials.push(m);
    }
    proof {
        assert(all.take(i as int) =~= all);
        assert(material_views(materials@) =~= finish_current(
            mtl_read_lines(all).unwrap(),
        ));
    }
    Ok(materials)
}


/// Each material is filed under its own name.
pub proof fn lemma_material_map_keys(ms: Seq<MaterialView>, n: Seq<char>)
    ensures
        material_map(ms).contains_key(n) ==> material_map(ms)[n].name == n,
    decreases ms.len(),
{
    if ms.len() > 0 {
        lemma_material_map_keys(ms.drop_last(), n);
    }
}

/// A material defined later replaces an earlier one of the same name.
pub proof fn lemma_later_material_wins(ms: Seq<MaterialView>, m: MaterialView)
    ensures
        material_map(ms.push(m)).contains_key(m.name),
        material_map(ms.push(m))[m.name] == m,
{
    assert(ms.push(m).drop_last() =~= ms);
}

/// Whether a line with tokens `t` is one of the directives a material
/// library is read from: `newmtl` or `Kd`.
pub open spec fn is_mtl_directive(t: Seq<Seq<char>>) -> bool {
    t.len() > 0 && (t[0] == seq!['n', 'e', 'w', 'm', 't', 'l'] || t[0] == seq!['K', 'd'])
}

/// The lines of `lines` that are material directives, in order.
pub open spec fn mtl_directives(lines: Seq<Seq<Seq<char>>>) -> Seq<Seq<Seq<char>>>
    decreases lines.len(),
{
    if lines.len() == 0 {
        lines
    } else if is_mtl_directive(lines.last()) {
        mtl_directives(lines.drop_last()).push(lines.last())
    } else {
        mtl_directives(lines.drop_last())
    }
}

/// A line that is neither `newmtl` nor `Kd` (a blank or comment line, or one
/// with any other keyword, such as `Ka`, `Ks`, `Ke`, `Ns` or `illum`) changes
/// nothing.
pub proof fn lemma_other_mtl_line_ignored(lines: Seq<Seq<Seq<char>>>, t: Seq<Seq<char>>)
    requires
        !is_mtl_directive(t),
    ensures
        mtl_read_lines(lines.push(t)) == mtl_read_lines(lines),
{
    assert(lines.push(t).drop_last() =~= lines);
    assert(seq!['K', 'd'].len() == 2);
    if t.len() > 0 && t[0].len() > 0 && t[0][0] == '#' {
        assert(t[0] != seq!['K', 'd']);
    }
}

/// A library reads the same once every line that is neither `newmtl` nor
/// `Kd` is removed.
pub proof fn lemma_mtl_reads_only_directives(lines: Seq<Seq<Seq<char>>>)
    ensures
        mtl_read_lines(mtl_directives(lines)) == mtl_read_lines(lines),
    decreases lines.len(),
{
    if lines.len() > 0 {
        lemma_mtl_reads_only_directives(lines.drop_last());
        let sub = mtl_directives(lines.drop_last());
        let t = lines.last();
        assert(lines.drop_last().push(t) =~= lines);
        if is_mtl_directive(t) {
            assert(sub.push(t).drop_last() =~= sub);
        } else {
            lemma_other_mtl_line_ignored(lines.drop_last(), t);
        }
    }
}

/// A line `Kd r g b` of three numbers sets the diffuse colour of the
/// material being read to `(r, g, b)`, in that order, and changes nothing
/// else.
pub proof fn lemma_kd_line_sets_diffuse(
    lines: Seq<Seq<Seq<char>>>,
    r: Seq<char>,
    g: Seq<char>,
    b: Seq<char>,
)
    requires
        mtl_read_lines(lines) matches Some(st) && st.1 is Some,
        is_float_literal(r),
        is_float_literal(g),
        is_float_literal(b),
    ensures
        ({
            let st = mtl_read_lines(lines)->0;
            mtl_read_lines(lines.push(seq![seq!['K', 'd'], r, g, b])) == Some(
                (st.0, Some(MaterialView { name: st.1->0.name, kd: Some((r, g, b)) })),
            )
        }),
{
    let t = seq![seq!['K', 'd'], r, g, b];
    assert(lines.push(t).drop_last() =~= lines);
    assert(seq!['K', 'd'].len() == 2);
    assert(t[0] != seq!['n', 'e', 'w', 'm', 't', 'l']);
    assert(t[0].len() > 0 && t[0][0] != '#');
    let rest = t.skip(1);
    assert(rest =~= seq![r, g, b]);
    let none: Seq<Seq<char>> = seq![];
    assert(float_tokens(none) == none);
    assert(seq![r].drop_last() =~= none);
    assert(seq![r, g].drop_last() =~= seq![r]);
    assert(seq![r, g, b].drop_last() =~= seq![r, g]);
    assert(float_tokens(seq![r]) =~= seq![r]);
    assert(float_tokens(seq![r, g]) =~= seq![r, g]);
    assert(float_tokens(rest) =~= seq![r, g, b]);
}

/// A material started by `newmtl n` and given `Kd r g b` is the material `n`
/// with diffuse colour `(r, g, b)`; the material read before it is finished.
pub proof fn lemma_new_material_with_kd(
    lines: Seq<Seq<Seq<char>>>,
    n: Seq<char>,
    r: Seq<char>,
    g: Seq<char>,
    b: Seq<char>,
)
    requires
        mtl_read_lines(lines) is Some,
        is_float_literal(r),
        is_float_literal(g),
        is_float_literal(b),
    ensures
        ({
            let st = mtl_read_lines(lines)->0;
            let read = lines.push(seq![seq!['n', 'e', 'w', 'm', 't', 'l'], n]).push(seq![seq!['K', 'd'], r, g, b]);
            &&& mtl_read_lines(read) == Some(
                (finish_current(st), Some(MaterialView { name: n, kd: Some((r, g, b)) })),
            )
            &&& material_map(finish_current(mtl_read_lines(read)->0)).contains_key(n)
            &&& material_map(finish_current(mtl_read_lines(read)->0))[n] == MaterialView {
                name: n,
                kd: Some((r, g, b)),
            }
        }),
{
    let t = seq![seq!['n', 'e', 'w', 'm', 't', 'l'], n];
    let with_new = lines.push(t);
    assert(with_new.drop_last() =~= lines);
    assert(t[0].len() > 0 && t[0][0] != '#');
    lemma_kd_line_sets_diffuse(with_new, r, g, b);
    let st = mtl_read_lines(lines)->0;
    lemma_later_material_wins(finish_current(st), MaterialView { name: n, kd: Some((r, g, b)) });
}

} // verus!
