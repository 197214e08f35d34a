use rasterboy::scene::{parse_scene_file, scene_elements, ElementKind, PropertyKind};

const SCENE: &str = "<scene>
  <camera> <projection> 4 4 1.5708 0.1 10 </projection> <position> 0 0 0 </position>
    <lookat> 0 0 -1 </lookat> <up> 0 1 0 </up> </camera>
  <light> <strength> 0.2 </strength> <color> 255 128 0 </color> <position> 0 0 10 </position> </light>
  <model> <mesh> \"quad.obj\" </mesh> <rotation> 0 0 1 </rotation> <position> 1 2 -3 </position> </model>
</scene>";

#[test]
fn scene_elements_in_order() {
    let root = parse_scene_file(SCENE).unwrap();
    let elements = scene_elements(&root).unwrap();
    assert_eq!(elements.len(), 3);
    assert_eq!(elements[0].kind, ElementKind::Camera);
    assert_eq!(elements[1].kind, ElementKind::Light);
    assert_eq!(elements[2].kind, ElementKind::Model);

    let camera = &elements[0].properties;
    assert_eq!(camera.len(), 4);
    assert_eq!(camera[0].kind, PropertyKind::Projection);
    assert_eq!(camera[0].values, vec!["4", "4", "1.5708", "0.1", "10"]);
    assert_eq!(camera[2].kind, PropertyKind::LookAt);
    assert_eq!(camera[3].kind, PropertyKind::Up);

    let light = &elements[1].properties;
    assert_eq!(light[0].kind, PropertyKind::Strength);
    assert_eq!(light[0].values, vec!["0.2"]);
    assert_eq!(light[1].kind, PropertyKind::Color);
    assert_eq!(light[1].values, vec!["255", "128", "0"]);

    let model = &elements[2].properties;
    assert_eq!(model[0].kind, PropertyKind::Mesh);
    assert_eq!(model[0].values, vec!["quad.obj"]);
    assert_eq!(model[1].kind, PropertyKind::Rotation);
    assert_eq!(model[2].kind, PropertyKind::Position);
    assert_eq!(model[2].values, vec!["1", "2", "-3"]);
}

#[test]
fn scene_with_no_elements() {
    let root = parse_scene_file("<scene></scene>").unwrap();
    assert!(scene_elements(&root).unwrap().is_empty());
}

#[test]
fn scene_errors() {
    // no scene tag
    assert!(scene_elements(&parse_scene_file("").unwrap()).is_err());
    // unknown element
    assert!(scene_elements(&parse_scene_file("<scene><tree/></scene>").unwrap()).is_err());
    // unknown property
    assert!(scene_elements(&parse_scene_file("<scene><light><size> 1 </size></light></scene>").unwrap()).is_err());
    // wrong number of values
    assert!(scene_elements(&parse_scene_file("<scene><light><color> 1 2 </color></light></scene>").unwrap()).is_err());
    // a value that is not a number
    assert!(scene_elements(&parse_scene_file("<scene><model><position> 1 \"a\" 2 </position></model></scene>").unwrap()).is_err());
    // a property that belongs to another element kind
    assert!(scene_elements(&parse_scene_file("<scene><model><strength> 1 </strength></model></scene>").unwrap()).is_err());
}
