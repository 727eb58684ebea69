use split_keyboard::action::{
    algr, key, layer_momentary, layer_toggle, shifted, KeyAction, ModifierSet,
};
use split_keyboard::keycode;
use split_keyboard::keymap::Keymap;
use split_keyboard::layout::default_keymap;
use split_keyboard::layout::shape;
use split_keyboard::storage::{
    checksum_of, decode_image, encode_cell, encode_image, parse_cell, ImageError, Shape, Storage,
    StorageError,
};

fn small_shape() -> Shape {
    Shape { layers: 2, rows: 1, cols: 3 }
}

fn small() -> Keymap {
    Keymap::new(
        2,
        1,
        3,
        vec![
            key(0x0104),
            layer_momentary(1),
            shifted(keycode::KC7),
            KeyAction::Transparent,
            KeyAction::NoOp,
            layer_toggle(1),
        ],
    )
    .unwrap()
}

fn small_image() -> Vec<u8> {
    vec![
        0x4B, 0x4D, 1, 2, 1, 3, 1, 1, 4, 0, 3, 0, 0, 1, 2, 0, 0x24, 2, 5, 0, 0, 0, 0, 0, 0, 0, 4,
        0, 0, 1, 219,
    ]
}

fn with_checksum(mut bytes: Vec<u8>) -> Vec<u8> {
    let sum = checksum_of(&bytes);
    bytes.push(sum);
    bytes
}

#[test]
fn image_has_the_documented_bytes() {
    assert_eq!(encode_image(&small()), small_image());
}

#[test]
fn checksum_is_the_sum_modulo_256() {
    assert_eq!(checksum_of(&vec![]), 0);
    assert_eq!(checksum_of(&vec![200, 100, 7]), 51);
    assert_eq!(checksum_of(&vec![255, 1]), 0);
}

#[test]
fn cells_are_read_back() {
    let cells = [
        key(0),
        key(0xFFFF),
        key(keycode::A),
        algr(keycode::KC0),
        KeyAction::KeyWithModifiers(0x1234, ModifierSet::from_bits(0xFF)),
        layer_momentary(0),
        layer_momentary(255),
        layer_toggle(7),
        KeyAction::Transparent,
        KeyAction::NoOp,
    ];
    for a in cells {
        let b = encode_cell(a);
        assert_eq!(parse_cell(b[0], b[1], b[2], b[3]), Some(a));
    }
    assert_eq!(encode_cell(key(0x1234)), [1, 0x12, 0x34, 0]);
    assert_eq!(encode_cell(algr(keycode::KC0)), [2, 0, 0x27, 0x14]);
    assert_eq!(encode_cell(layer_toggle(7)), [4, 0, 0, 7]);
}

#[test]
fn cells_with_stray_bytes_are_refused() {
    assert_eq!(parse_cell(6, 0, 0, 0), None);
    assert_eq!(parse_cell(0, 0, 0, 1), None);
    assert_eq!(parse_cell(1, 0, 4, 1), None);
    assert_eq!(parse_cell(3, 1, 0, 1), None);
    assert_eq!(parse_cell(4, 0, 1, 1), None);
    assert_eq!(parse_cell(5, 0, 0, 9), None);
}

#[test]
fn save_then_load_gives_the_keymap_back() {
    let mut storage = Storage::new(Vec::new(), 4096, shape());
    let km = default_keymap();
    assert_eq!(storage.save(&km), Ok(()));
    assert_eq!(storage.image().len(), 7 + 4 * 320);
    let loaded = storage.load(small());
    assert_eq!(loaded.cells(), km.cells());
    assert_eq!((loaded.layers(), loaded.rows(), loaded.cols()), (4, 5, 16));
    for stack in [vec![0u8], vec![0, 1], vec![0, 3, 2], vec![0, 1, 2, 3]] {
        for row in 0..5u8 {
            for col in 0..16u8 {
                assert_eq!(loaded.resolve(&stack, row, col), km.resolve(&stack, row, col));
            }
        }
    }
}

#[test]
fn failed_save_leaves_the_prior_keymap() {
    let mut storage = Storage::new(small_image(), 30, small_shape());
    assert_eq!(storage.capacity(), 30);
    assert_eq!(storage.shape(), small_shape());
    let other = Keymap::new(2, 1, 3, vec![key(keycode::B); 6]).unwrap();
    assert_eq!(storage.save(&other), Err(StorageError::TooLarge));
    assert_eq!(storage.image(), &small_image());
    let loaded = storage.load(default_keymap());
    assert_eq!(loaded.cells(), small().cells());
}

#[test]
fn save_fits_exactly() {
    let mut storage = Storage::new(Vec::new(), 31, small_shape());
    assert_eq!(storage.save(&small()), Ok(()));
    let mut tight = Storage::new(Vec::new(), 30, small_shape());
    assert_eq!(tight.save(&small()), Err(StorageError::TooLarge));
    assert!(tight.image().is_empty());
}

#[test]
fn empty_storage_loads_the_default() {
    let storage = Storage::new(Vec::new(), 4096, shape());
    let loaded = storage.load(small());
    assert_eq!(loaded.cells(), small().cells());
}

#[test]
fn corrupted_image_loads_the_default() {
    let mut image = small_image();
    image[8] ^= 0x40;
    let storage = Storage::new(image, 4096, small_shape());
    let loaded = storage.load(default_keymap());
    assert_eq!(loaded.cells(), default_keymap().cells());
}

#[test]
fn decode_names_the_first_failed_check() {
    assert_eq!(decode_image(&vec![0x4B, 0x4D, 1, 1, 1, 1]).unwrap_err(), ImageError::TooShort);
    let mut bad = small_image();
    bad[1] = 0;
    assert_eq!(decode_image(&bad).unwrap_err(), ImageError::BadMagic);
    let mut bad = small_image();
    bad[2] = 2;
    assert_eq!(decode_image(&bad).unwrap_err(), ImageError::BadVersion);
    let mut bad = small_image();
    bad[4] = 0;
    assert_eq!(decode_image(&bad).unwrap_err(), ImageError::BadLength);
    let mut bad = small_image();
    bad.pop();
    assert_eq!(decode_image(&bad).unwrap_err(), ImageError::BadLength);
    let mut bad = small_image();
    bad[30] = 0;
    assert_eq!(decode_image(&bad).unwrap_err(), ImageError::BadChecksum);
    let mut bad = small_image();
    bad.pop();
    bad[6] = 9;
    assert_eq!(decode_image(&with_checksum(bad)).unwrap_err(), ImageError::BadCell);
    let mut bad = small_image();
    bad.pop();
    bad[13] = 2;
    assert_eq!(decode_image(&with_checksum(bad)).unwrap_err(), ImageError::UnknownLayer);
    assert_eq!(decode_image(&small_image()).unwrap().cells(), small().cells());
}

#[test]
fn keymap_of_other_dimensions_is_neither_saved_nor_loaded() {
    let mut storage = Storage::new(Vec::new(), 4096, shape());
    assert_eq!(storage.save(&small()), Err(StorageError::WrongShape));
    assert!(storage.image().is_empty());
    let foreign = Storage::new(small_image(), 4096, shape());
    let loaded = foreign.load(default_keymap());
    assert_eq!((loaded.layers(), loaded.rows(), loaded.cols()), (4, 5, 16));
    assert_eq!(loaded.cells(), default_keymap().cells());
    let mut tiny = Storage::new(Vec::new(), 0, shape());
    assert_eq!(tiny.save(&small()), Err(StorageError::WrongShape));
    assert_eq!(tiny.save(&default_keymap()), Err(StorageError::TooLarge));
}
