use terminal_renderer::geometry::Color;
use terminal_renderer::models::model_store::MaterialStore;
use terminal_renderer::models::mtl_loader::{parse_materials, Material, MtlError};
use terminal_renderer::models::obj_model_loader::{load_model, FaceColor, ObjError, ObjModel};

fn material_named<'a>(ms: &'a [Material], name: &str) -> Option<&'a Material> {
    ms.iter().rev().find(|m| m.name == name)
}

fn kd(m: &Material) -> Option<(String, String, String)> {
    m.kd.clone()
}

fn t3(a: &str, b: &str, c: &str) -> (String, String, String) {
    (a.to_string(), b.to_string(), c.to_string())
}

#[test]
fn parses_materials() {
    let mtl = "# materials\nnewmtl red\nKd 1.0 0.0 0.0\n\nnewmtl blue\n  Kd 0 0 1   \nNs 10\nnewmtl plain\n";
    let ms = parse_materials(mtl).unwrap();
    assert_eq!(kd(material_named(&ms, "red").unwrap()), Some(t3("1.0", "0.0", "0.0")));
    assert_eq!(kd(material_named(&ms, "blue").unwrap()), Some(t3("0", "0", "1")));
    assert_eq!(kd(material_named(&ms, "plain").unwrap()), None);
    assert!(material_named(&ms, "green").is_none());
}

#[test]
fn kd_skips_non_numbers_and_later_definitions_win() {
    let mtl = "newmtl m\nKd x 0.5 y 0.25 1e0 7\nnewmtl m\nKd 0.1 0.2 0.3\n";
    let ms = parse_materials(mtl).unwrap();
    assert_eq!(kd(material_named(&ms, "m").unwrap()), Some(t3("0.1", "0.2", "0.3")));
    let first = parse_materials("newmtl m\nKd x 0.5 y 0.25 1e0 7\n").unwrap();
    assert_eq!(kd(material_named(&first, "m").unwrap()), Some(t3("0.5", "0.25", "1e0")));
}

#[test]
fn incomplete_kd_is_rejected_only_with_a_material() {
    assert_eq!(parse_materials("newmtl m\nKd 1 2\n").unwrap_err(), MtlError::IncompleteKd);
    assert!(parse_materials("Kd 1 2\n").unwrap().is_empty());
    // newmtl without a name ends the current material
    let ms = parse_materials("newmtl a\nnewmtl\nKd 1\n").unwrap();
    assert_eq!(ms.len(), 1);
    assert_eq!(kd(&ms[0]), None);
}

#[test]
fn material_store_reads_back_what_was_put() {
    let mut store = MaterialStore::new();
    assert!(store.get("a.mtl", "red").is_none());
    let ms = parse_materials("newmtl red\nKd 1 0 0\nnewmtl green\nKd 0 1 0\n").unwrap();
    store.put("a.mtl", &ms);
    assert_eq!(kd(store.get("a.mtl", "red").unwrap()), Some(t3("1", "0", "0")));
    assert!(store.get("b.mtl", "red").is_none());
    let ms2 = parse_materials("newmtl red\nKd 0.5 0.5 0.5\n").unwrap();
    store.put("a.mtl", &ms2);
    assert_eq!(kd(store.get("a.mtl", "red").unwrap()), Some(t3("0.5", "0.5", "0.5")));
    assert_eq!(kd(store.get("a.mtl", "green").unwrap()), Some(t3("0", "1", "0")));
}

fn store_with(file: &str, mtl: &str) -> MaterialStore {
    let mut store = MaterialStore::new();
    store.put(file, &parse_materials(mtl).unwrap());
    store
}

#[test]
fn loads_a_quad_with_material() {
    let store = store_with("m.mtl", "newmtl red\nKd 1.0 0.0 0.0\n");
    let obj = "# quad\nmtllib m.mtl\nv 0 0 0\nv 1 0 0\nv 1 1 0\nv 0 1 0\nvn 0 0 1\nusemtl red\nf 1/1/1 2/1/1 3/1/1 4/1/1\n";
    let model: ObjModel = load_model(obj, &store).unwrap();
    assert_eq!(model.vertices.len(), 4);
    assert_eq!(model.vertices[1], t3("1", "0", "0"));
    assert_eq!(model.normals, vec![t3("0", "0", "1")]);
    assert_eq!(model.triangles.len(), 2);
    assert_eq!(model.triangles[0].vertices, [0, 1, 2]);
    assert_eq!(model.triangles[1].vertices, [0, 2, 3]);
    for t in &model.triangles {
        assert_eq!(t.normal, 0);
        match &t.color {
            FaceColor::Diffuse(r, g, b) => assert_eq!((r.as_str(), g.as_str(), b.as_str()), ("1.0", "0.0", "0.0")),
            FaceColor::Fixed(_) => panic!("expected the material's colour"),
        }
    }
}

#[test]
fn faces_without_material_share_one_colour() {
    let store = MaterialStore::new();
    let obj = "v 0 0 0\nv 1 0 0\nv 1 1 0\nv 0 1 0\nv 2 2 2\nvn 0 0 1\nf 1//1 2//1 3//1 4//1 5//1\n";
    let model = load_model(obj, &store).unwrap();
    assert_eq!(model.triangles.len(), 3);
    let colors: Vec<Color> = model
        .triangles
        .iter()
        .map(|t| match t.color {
            FaceColor::Fixed(c) => c,
            _ => panic!("expected a fixed colour"),
        })
        .collect();
    assert!(colors.iter().all(|c| *c == colors[0]));
    assert_eq!(model.triangles[2].vertices, [0, 3, 4]);
}

#[test]
fn rejected_meshes() {
    let store = store_with("m.mtl", "newmtl red\nKd 1 0 0\nnewmtl bare\n");
    let cases: [(&str, ObjError); 11] = [
        ("mtllib\n", ObjError::MissingFileName),
        ("usemtl\n", ObjError::MissingMaterialName),
        ("usemtl red\n", ObjError::UnknownMaterial),
        ("mtllib other.mtl\nusemtl red\n", ObjError::UnknownMaterial),
        ("v 1 2\n", ObjError::MalformedVertex),
        ("vn 1 x 2\n", ObjError::MalformedNormal),
        ("v 0 0 0\nvn 0 0 1\nf 1//1 1//1\n", ObjError::MalformedFace),
        ("v 0 0 0\nvn 0 0 1\nf 1/1 1/1 1/1\n", ObjError::MalformedFace),
        ("v 0 0 0\nvn 0 0 1\nf 1//2 1//1 1//1\n", ObjError::MalformedFace),
        ("v 0 0 0\nvn 0 0 1\nf 1//1 2//1 1//1\n", ObjError::MalformedFace),
        ("mtllib m.mtl\nusemtl bare\nv 0 0 0\nvn 0 0 1\nf 1//1 1//1 1//1\n", ObjError::MaterialWithoutKd),
    ];
    for (obj, err) in cases {
        assert_eq!(load_model(obj, &store).unwrap_err(), err, "{:?}", obj);
    }
}

#[test]
fn first_library_with_the_material_is_used() {
    let mut store = store_with("a.mtl", "newmtl m\nKd 0.1 0.1 0.1\n");
    store.put("b.mtl", &parse_materials("newmtl m\nKd 0.9 0.9 0.9\n").unwrap());
    let obj = "mtllib b.mtl\nmtllib a.mtl\nusemtl m\nv 0 0 0\nvn 0 0 1\nf 1//1 1//1 1//1\n";
    let model = load_model(obj, &store).unwrap();
    match &model.triangles[0].color {
        FaceColor::Diffuse(r, _, _) => assert_eq!(r, "0.9"),
        _ => panic!("expected the material's colour"),
    }
}
