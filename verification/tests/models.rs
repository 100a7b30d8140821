use engine::block_model::{
    texture_name, Block, ModelElement, ModelElementTexture, ModelRegistry, ModelTextureType, TextureName,
};
use engine::geometry::FaceType;
use engine::pixels::pixels_to_rgba;
use engine::texture_atlas::{atlas_texture_names, decode_atlas_layers};

const FALLBACK: u32 = 0;
const COBBLE: u32 = 1;
const GRASS_TOP: u32 = 2;
const GRASS_SIDE: u32 = 3;

// texture variables
const ALL: u32 = 10;
const TOP: u32 = 11;
const SIDE: u32 = 12;

fn var(v: u32) -> Option<ModelElementTexture> {
    Some(ModelElementTexture { uv: None, texture: ModelTextureType::ChildDefined(v) })
}

/// A cube whose faces name the variables `top` and `side`.
fn cube() -> Block {
    Block {
        parent: None,
        elements: Some(vec![ModelElement {
            front: var(SIDE),
            back: var(SIDE),
            left: var(SIDE),
            right: var(SIDE),
            top: var(TOP),
            bottom: var(SIDE),
        }]),
        textures: None,
    }
}

/// Defers to the cube with both variables set to the child's `all`.
fn cube_all() -> Block {
    Block {
        parent: Some(0),
        elements: None,
        textures: Some(vec![(TOP, ModelTextureType::ChildDefined(ALL)), (SIDE, ModelTextureType::ChildDefined(ALL))]),
    }
}

fn registry() -> ModelRegistry {
    ModelRegistry { models: vec![cube(), cube_all()], fallback: FALLBACK }
}

#[test]
fn textures_resolve_through_parents() {
    let reg = registry();
    let cobblestone = Block {
        parent: Some(1),
        elements: None,
        textures: Some(vec![(ALL, ModelTextureType::TextureResource(COBBLE))]),
    };
    assert!(cobblestone.can_be_used());
    assert_eq!(cobblestone.get_texture(FaceType::Top, &reg), COBBLE);
    assert_eq!(cobblestone.get_texture(FaceType::Left, &reg), COBBLE);

    let grass = Block {
        parent: Some(0),
        elements: None,
        textures: Some(vec![
            (TOP, ModelTextureType::TextureResource(GRASS_TOP)),
            (SIDE, ModelTextureType::TextureResource(GRASS_SIDE)),
        ]),
    };
    assert_eq!(grass.get_texture(FaceType::Top, &reg), GRASS_TOP);
    assert_eq!(grass.get_texture(FaceType::Front, &reg), GRASS_SIDE);
    // the right and bottom faces show the element's front texture
    assert_eq!(grass.get_texture(FaceType::Right, &reg), GRASS_SIDE);
    assert_eq!(grass.get_texture(FaceType::Bottom, &reg), GRASS_SIDE);
}

#[test]
fn unusable_or_parentless_models_show_the_fallback() {
    let reg = registry();
    // the cube leaves its variables open
    assert!(!cube().can_be_used());
    assert_eq!(cube().try_get_texture(FaceType::Top, &reg), Some(FALLBACK));
    assert!(!cube_all().can_be_used());
    let lone = Block { parent: None, elements: None, textures: Some(vec![(ALL, ModelTextureType::TextureResource(COBBLE))]) };
    assert_eq!(lone.get_texture(FaceType::Top, &reg), FALLBACK);
    let t = ModelElementTexture { uv: Some([0, 0, 16, 16]), texture: ModelTextureType::TextureResource(COBBLE) };
    assert!(t.can_be_used());
    let e = ModelElement { front: Some(t), back: None, left: None, right: None, top: var(TOP), bottom: None };
    assert!(!e.can_be_used());
}

#[test]
fn broken_chains_give_no_texture() {
    let reg = registry();
    // parent not registered
    let orphan = Block { parent: Some(9), elements: None, textures: Some(vec![]) };
    assert_eq!(orphan.try_get_texture(FaceType::Top, &reg), None);
    // the child does not define `all`
    let missing = Block { parent: Some(1), elements: None, textures: Some(vec![(TOP, ModelTextureType::TextureResource(COBBLE))]) };
    assert_eq!(missing.try_get_texture(FaceType::Top, &reg), None);
    // a parent without textures to fill in
    let bare = Block { parent: Some(1), elements: None, textures: None };
    assert_eq!(bare.try_get_texture(FaceType::Top, &reg), None);
    // a cycle of models that each define variables never reaches elements
    let looped = ModelRegistry {
        models: vec![
            Block { parent: Some(1), elements: None, textures: Some(vec![]) },
            Block { parent: Some(0), elements: None, textures: Some(vec![]) },
        ],
        fallback: FALLBACK,
    };
    let child = Block { parent: Some(0), elements: None, textures: Some(vec![]) };
    assert_eq!(child.try_get_texture(FaceType::Top, &looped), None);
}

#[test]
fn pixel_rows_unpack_left_to_right() {
    // two by two, three channels, with a stray byte at the end
    let bytes = vec![1, 2, 3, 4, 5, 6, 7, 8, 9, 10, 11, 12, 99];
    let px = pixels_to_rgba(&bytes, 2, 3);
    assert_eq!(
        px,
        vec![
            (0, 0, [1, 2, 3, 0]),
            (1, 0, [4, 5, 6, 0]),
            (0, 1, [7, 8, 9, 0]),
            (1, 1, [10, 11, 12, 0]),
        ]
    );
    let gray = pixels_to_rgba(&vec![7, 8, 9], 3, 1);
    assert_eq!(gray, vec![(0, 0, [7, 0, 0, 0]), (1, 0, [8, 0, 0, 0]), (2, 0, [9, 0, 0, 0])]);
    let rgba = pixels_to_rgba(&vec![1, 2, 3, 4], 1, 4);
    assert_eq!(rgba, vec![(0, 0, [1, 2, 3, 4])]);
    assert!(pixels_to_rgba(&vec![1, 2], 4, 3).is_empty());
}

#[test]
fn texture_names_in_model_files() {
    assert_eq!(texture_name("engine:dirt", true), Some(TextureName::Resource("engine:dirt".to_string())));
    assert_eq!(texture_name("#all", false), Some(TextureName::Variable("all".to_string())));
    assert_eq!(texture_name("#si#de", false), Some(TextureName::Variable("side".to_string())));
    assert_eq!(texture_name("#", false), Some(TextureName::Variable(String::new())));
    assert_eq!(texture_name("all", false), None);
    assert_eq!(texture_name("", false), None);
}

fn png_bytes(w: u32, h: u32, pixels: Vec<u8>) -> Vec<u8> {
    let img = image::RgbaImage::from_raw(w, h, pixels).unwrap();
    let mut out = std::io::Cursor::new(Vec::new());
    image::DynamicImage::ImageRgba8(img).write_to(&mut out, image::ImageFormat::Png).unwrap();
    out.into_inner()
}

#[test]
fn atlas_layers_decode_in_file_order() {
    let a = png_bytes(1, 1, vec![10, 20, 30, 255]);
    let b = png_bytes(2, 1, vec![1, 2, 3, 4, 5, 6, 7, 8]);
    let layers = decode_atlas_layers(&vec![a.clone(), b.clone()]).unwrap();
    assert_eq!(layers, vec![(1, 1, vec![10, 20, 30, 255]), (2, 1, vec![1, 2, 3, 4, 5, 6, 7, 8])]);
    // one file that is no image spoils the atlas
    assert_eq!(decode_atlas_layers(&vec![a, vec![1, 2, 3], b]), None);
    assert_eq!(decode_atlas_layers(&vec![]), Some(vec![]));
    let names = atlas_texture_names();
    assert_eq!(names[0], "cobblestone");
    assert_eq!(names[8], "log");
    assert_eq!(names.len(), 9);
}
