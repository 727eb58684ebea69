//! The persisted image of the keymap, and the storage that keeps it.
//!
//! An image is a header (two magic bytes, the format version, the three
//! dimensions), four bytes for each cell, and a checksum over all that
//! precedes it. An image that fails any check is never used in part: loading
//! falls back to the default keymap.

use vstd::prelude::*;
use crate::action::{KeyAction, ModifierSet};
use crate::keymap::{Keymap, KeymapError, KeymapView, layer_ref_ok, resolve_spec};

verus! {

pub const MAGIC0: u8 = 0x4B;
pub const MAGIC1: u8 = 0x4D;
pub const VERSION: u8 = 1;
/// Bytes before the first cell.
pub const HEADER_LEN: usize = 6;
/// Bytes of one cell.
pub const CELL_LEN: usize = 4;

pub const TAG_NOOP: u8 = 0;
pub const TAG_KEY: u8 = 1;
pub const TAG_KEY_WITH_MODIFIERS: u8 = 2;
pub const TAG_LAYER_MOMENTARY: u8 = 3;
pub const TAG_LAYER_TOGGLE: u8 = 4;
pub const TAG_TRANSPARENT: u8 = 5;

/// Why an image is not a keymap.
#[derive(Clone, Copy, Debug, PartialEq, Eq, Structural)]
pub enum ImageError {
    /// Shorter than a header and a checksum.
    TooShort,
    /// The magic bytes are not there.
    BadMagic,
    /// Another format version.
    BadVersion,
    /// A dimension is zero, or the length does not fit the dimensions.
    BadLength,
    /// The checksum does not match.
    BadChecksum,
    /// The bytes of a cell stand for no action.
    BadCell,
    /// A layer key names a layer that the keymap does not have.
    UnknownLayer,
}

/// Why a keymap was not saved.
#[derive(Clone, Copy, Debug, PartialEq, Eq, Structural)]
pub enum StorageError {
    /// The keymap has not the dimensions of the keyboard.
    WrongShape,
    /// The image is larger than the storage.
    TooLarge,
}

/// The dimensions of the keyboard, which are fixed when the firmware is
/// built.
#[derive(Clone, Copy, Debug, PartialEq, Eq, Structural)]
pub struct Shape {
    pub layers: u8,
    pub rows: u8,
    pub cols: u8,
}

impl Shape {
    /// Whether a keymap has these dimensions.
    pub open spec fn fits(self, km: KeymapView) -> bool {
        km.layers == self.layers && km.rows == self.rows && km.cols == self.cols
    }
}

/// The four bytes of a cell: the tag, the key code high and low, and the
/// modifiers or the layer.
pub open spec fn cell_bytes(a: KeyAction) -> Seq<u8> {
    match a {
        KeyAction::NoOp => seq![TAG_NOOP, 0u8, 0u8, 0u8],
        KeyAction::Key(k) => seq![TAG_KEY, (k / 256) as u8, (k % 256) as u8, 0u8],
        KeyAction::KeyWithModifiers(k, m) => seq![
            TAG_KEY_WITH_MODIFIERS,
            (k / 256) as u8,
            (k % 256) as u8,
            m.bits,
        ],
        KeyAction::LayerMomentary(n) => seq![TAG_LAYER_MOMENTARY, 0u8, 0u8, n],
        KeyAction::LayerToggle(n) => seq![TAG_LAYER_TOGGLE, 0u8, 0u8, n],
        KeyAction::Transparent => seq![TAG_TRANSPARENT, 0u8, 0u8, 0u8],
    }
}

/// The action that four bytes stand for, if any.
pub open spec fn decode_cell(tag: u8, hi: u8, lo: u8, arg: u8) -> Option<KeyAction> {
    if tag == TAG_NOOP && hi == 0 && lo == 0 && arg == 0 {
        Some(KeyAction::NoOp)
    } else if tag == TAG_KEY && arg == 0 {
        Some(KeyAction::Key((hi * 256 + lo) as u16))
    } else if tag == TAG_KEY_WITH_MODIFIERS {
        Some(KeyAction::KeyWithModifiers((hi * 256 + lo) as u16, ModifierSet { bits: arg }))
    } else if tag == TAG_LAYER_MOMENTARY && hi == 0 && lo == 0 {
        Some(KeyAction::LayerMomentary(arg))
    } else if tag == TAG_LAYER_TOGGLE && hi == 0 && lo == 0 {
        Some(KeyAction::LayerToggle(arg))
    } else if tag == TAG_TRANSPARENT && hi == 0 && lo == 0 && arg == 0 {
        Some(KeyAction::Transparent)
    } else {
        None
    }
}

/// The bytes of the cells, one cell after the other.
pub open spec fn cells_bytes(cells: Seq<KeyAction>) -> Seq<u8>
    decreases cells.len(),
{
    if cells.len() == 0 {
        Seq::empty()
    } else {
        cells_bytes(cells.drop_last()) + cell_bytes(cells.last())
    }
}

/// The sum of the bytes, modulo 256.
pub open spec fn checksum(bytes: Seq<u8>) -> u8
    decreases bytes.len(),
{
    if bytes.len() == 0 {
        0u8
    } else {
        ((checksum(bytes.drop_last()) + bytes.last()) % 256) as u8
    }
}

/// The header of a keymap's image.
pub open spec fn header_bytes(km: KeymapView) -> Seq<u8> {
    seq![MAGIC0, MAGIC1, VERSION, km.layers as u8, km.rows as u8, km.cols as u8]
}

/// The image of a keymap.
pub open spec fn image_spec(km: KeymapView) -> Seq<u8> {
    let payload = header_bytes(km) + cells_bytes(km.cells);
    payload.push(checksum(payload))
}

/// The action that the bytes of cell `i` of an image stand for, if any.
pub open spec fn cell_at(bytes: Seq<u8>, i: int) -> Option<KeyAction> {
    decode_cell(bytes[6 + 4 * i], bytes[6 + 4 * i + 1], bytes[6 + 4 * i + 2], bytes[6 + 4 * i + 3])
}

/// Number of cells that the header of an image announces.
pub open spec fn announced_cells(bytes: Seq<u8>) -> int {
    bytes[3] * bytes[4] * bytes[5]
}

/// The first check that an image fails, if it fails one.
pub open spec fn image_error(bytes: Seq<u8>) -> Option<ImageError> {
    if bytes.len() < 7 {
        Some(ImageError::TooShort)
    } else if bytes[0] != MAGIC0 || bytes[1] != MAGIC1 {
        Some(ImageError::BadMagic)
    } else if bytes[2] != VERSION {
        Some(ImageError::BadVersion)
    } else if bytes[3] == 0 || bytes[4] == 0 || bytes[5] == 0 || bytes.len() != 7 + 4
        * announced_cells(bytes) {
        Some(ImageError::BadLength)
    } else if checksum(bytes.drop_last()) != bytes.last() {
        Some(ImageError::BadChecksum)
    } else if exists|i: int| 0 <= i < announced_cells(bytes) && (#[trigger] cell_at(bytes, i)) is None {
        Some(ImageError::BadCell)
    } else if exists|i: int|
        0 <= i < announced_cells(bytes) && !layer_ref_ok(
            (#[trigger] cell_at(bytes, i)).unwrap(),
            bytes[3] as nat,
        ) {
        Some(ImageError::UnknownLayer)
    } else {
        None
    }
}

/// Whether an image passes the checks on its header, its length and its
/// checksum.
pub open spec fn envelope_ok(bytes: Seq<u8>) -> bool {
    &&& bytes.len() >= 7
    &&& bytes[0] == MAGIC0 && bytes[1] == MAGIC1 && bytes[2] == VERSION
    &&& bytes[3] != 0 && bytes[4] != 0 && bytes[5] != 0
    &&& bytes.len() == 7 + 4 * announced_cells(bytes)
    &&& checksum(bytes.drop_last()) == bytes.last()
}

/// The keymap that an image holds, for an image that passes every check.
pub open spec fn decoded_view(bytes: Seq<u8>) -> KeymapView {
    KeymapView {
        layers: bytes[3] as nat,
        rows: bytes[4] as nat,
        cols: bytes[5] as nat,
        cells: Seq::new(announced_cells(bytes) as nat, |i: int| cell_at(bytes, i).unwrap()),
    }
}

/// Whether an image is accepted on a keyboard of the given dimensions: it
/// passes every check and holds a keymap of those dimensions.
pub open spec fn accepted(bytes: Seq<u8>, shape: Shape) -> bool {
    image_error(bytes) is None && shape.fits(decoded_view(bytes))
}

/// The keymap that loading yields: that of the image if the image is
/// accepted, and else the default.
pub open spec fn loaded_view(bytes: Seq<u8>, shape: Shape, default: KeymapView) -> KeymapView {
    if accepted(bytes, shape) {
        decoded_view(bytes)
    } else {
        default
    }
}

/// The bytes of the cells are four for each cell, and those of cell `i` stand
/// at `4 * i`.
pub proof fn lemma_cells_bytes_at(cells: Seq<KeyAction>, i: int)
    requires
        0 <= i < cells.len(),
    ensures
        cells_bytes(cells).len() == 4 * cells.len(),
        cells_bytes(cells)[4 * i] == cell_bytes(cells[i])[0],
        cells_bytes(cells)[4 * i + 1] == cell_bytes(cells[i])[1],
        cells_bytes(cells)[4 * i + 2] == cell_bytes(cells[i])[2],
        cells_bytes(cells)[4 * i + 3] == cell_bytes(cells[i])[3],
    decreases cells.len(),
{
    lemma_cells_bytes_len(cells);
    lemma_cells_bytes_len(cells.drop_last());
    if i < cells.len() - 1 {
        lemma_cells_bytes_at(cells.drop_last(), i);
    }
}

/// The bytes of the cells are four for each cell.
pub proof fn lemma_cells_bytes_len(cells: Seq<KeyAction>)
    ensures
        cells_bytes(cells).len() == 4 * cells.len(),
    decreases cells.len(),
{
    if cells.len() > 0 {
        lemma_cells_bytes_len(cells.drop_last());
    }
}

/// Every action is read back from its four bytes.
pub proof fn lemma_cell_round_trip(a: KeyAction)
    ensures
        cell_bytes(a).len() == 4,
        decode_cell(cell_bytes(a)[0], cell_bytes(a)[1], cell_bytes(a)[2], cell_bytes(a)[3]) == Some(
            a,
        ),
{
}

/// What was saved is what is loaded: the image of a usable keymap passes
/// every check and holds that keymap, so that every coordinate resolves
/// against every stack of layers as it did before.
pub proof fn lemma_image_round_trip(km: KeymapView)
    requires
        km.wf(),
    ensures
        image_error(image_spec(km)) is None,
        decoded_view(image_spec(km)) == km,
        forall|shape: Shape, default: KeymapView|
            shape.fits(km) ==> #[trigger] loaded_view(image_spec(km), shape, default) == km,
        forall|stack: Seq<u8>, row: int, col: int|
            #[trigger] resolve_spec(decoded_view(image_spec(km)), stack, row, col) == resolve_spec(
                km,
                stack,
                row,
                col,
            ),
{
    let payload = header_bytes(km) + cells_bytes(km.cells);
    let image = image_spec(km);
    lemma_cells_bytes_len(km.cells);
    assert(image.drop_last() =~= payload);
    assert(image[3] == km.layers && image[4] == km.rows && image[5] == km.cols);
    assert(announced_cells(image) == km.cells.len());
    assert forall|i: int| 0 <= i < km.cells.len() implies #[trigger] cell_at(image, i) == Some(
        km.cells[i],
    ) by {
        lemma_cells_bytes_at(km.cells, i);
        lemma_cell_round_trip(km.cells[i]);
        assert(image[6 + 4 * i] == cells_bytes(km.cells)[4 * i]);
        assert(image[6 + 4 * i + 1] == cells_bytes(km.cells)[4 * i + 1]);
        assert(image[6 + 4 * i + 2] == cells_bytes(km.cells)[4 * i + 2]);
        assert(image[6 + 4 * i + 3] == cells_bytes(km.cells)[4 * i + 3]);
    }
    assert(decoded_view(image).cells =~= km.cells);
}

/// The sum of the bytes, modulo 256.
pub fn checksum_of(bytes: &Vec<u8>) -> (res: u8)
    ensures
        res == checksum(bytes@),
{
    let mut sum: u8 = 0;
    let mut i: usize = 0;
    while i < bytes.len()
        invariant
            0 <= i <= bytes@.len(),
            sum == checksum(bytes@.take(i as int)),
        decreases bytes@.len() - i,
    {
        proof {
            let next = bytes@.take(i + 1);
            assert(next.last() == bytes@[i as int]);
            assert(next.drop_last() =~= bytes@.take(i as int));
        }
        let wide: u32 = (sum as u32 + bytes[i] as u32) % 256;
        sum = wide as u8;
        i = i + 1;
    }
    assert(bytes@.take(i as int) =~= bytes@);
    sum
}

/// The four bytes of a cell.
pub fn encode_cell(a: KeyAction) -> (res: [u8; 4])
    ensures
        res@ == cell_bytes(a),
{
    let res: [u8; 4] = match a {
        KeyAction::NoOp => [TAG_NOOP, 0, 0, 0],
        KeyAction::Key(k) => [TAG_KEY, (k / 256) as u8, (k % 256) as u8, 0],
        KeyAction::KeyWithModifiers(k, m) => [
            TAG_KEY_WITH_MODIFIERS,
            (k / 256) as u8,
            (k % 256) as u8,
            m.bits,
        ],
        KeyAction::LayerMomentary(n) => [TAG_LAYER_MOMENTARY, 0, 0, n],
        KeyAction::LayerToggle(n) => [TAG_LAYER_TOGGLE, 0, 0, n],
        KeyAction::Transparent => [TAG_TRANSPARENT, 0, 0, 0],
    };
    assert(res@ =~= cell_bytes(a));
    res
}

/// The action that four bytes stand for, if any.
pub fn parse_cell(tag: u8, hi: u8, lo: u8, arg: u8) -> (res: Option<KeyAction>)
    ensures
        res == decode_cell(tag, hi, lo, arg),
{
    let code: u16 = (hi as u16) * 256 + (lo as u16);
    if tag == TAG_NOOP && hi == 0 && lo == 0 && arg == 0 {
        Some(KeyAction::NoOp)
    } else if tag == TAG_KEY && arg == 0 {
        Some(KeyAction::Key(code))
    } else if tag == TAG_KEY_WITH_MODIFIERS {
        Some(KeyAction::KeyWithModifiers(code, ModifierSet { bits: arg }))
    } else if tag == TAG_LAYER_MOMENTARY && hi == 0 && lo == 0 {
        Some(KeyAction::LayerMomentary(arg))
    } else if tag == TAG_LAYER_TOGGLE && hi == 0 && lo == 0 {
        Some(KeyAction::LayerToggle(arg))
    } else if tag == TAG_TRANSPARENT && hi == 0 && lo == 0 && arg == 0 {
        Some(KeyAction::Transparent)
    } else {
        None
    }
}

/// The image of a keymap.
pub fn encode_image(km: &Keymap) -> (res: Vec<u8>)
    requires
        km@.wf(),
    ensures
        res@ == image_spec(km@),
{
    let cells = km.cells();
    let mut out: Vec<u8> = Vec::new();
    out.push(MAGIC0);
    out.push(MAGIC1);
    out.push(VERSION);
    out.push(km.layers());
    out.push(km.rows());
    out.push(km.cols());
    assert(out@ =~= header_bytes(km@));
    assert(cells@.take(0) =~= Seq::<KeyAction>::empty());
    let mut i: usize = 0;
    while i < cells.len()
        invariant
            0 <= i <= cells@.len(),
            out@ == header_bytes(km@) + cells_bytes(cells@.take(i as int)),
        decreases cells@.len() - i,
    {
        proof {
            let next = cells@.take(i + 1);
            assert(next.last() == cells@[i as int]);
            assert(next.drop_last() =~= cells@.take(i as int));
        }
        let ghost before = out@;
        let b = encode_cell(cells[i]);
        out.push(b[0]);
        out.push(b[1]);
        out.push(b[2]);
        out.push(b[3]);
        assert(out@ =~= before + cell_bytes(cells@[i as int]));
        assert(out@ =~= header_bytes(km@) + cells_bytes(cells@.take(i + 1)));
        i = i + 1;
    }
    assert(cells@.take(i as int) =~= cells@);
    let sum = checksum_of(&out);
    out.push(sum);
    out
}

/// Reads a keymap from an image. Every check has to pass; the error names
/// the first that did not.
pub fn decode_image(bytes: &Vec<u8>) -> (res: Result<Keymap, ImageError>)
    ensures
        match res {
            Ok(km) => image_error(bytes@) is None && km@ == decoded_view(bytes@) && km@.wf(),
            Err(e) => image_error(bytes@) == Some(e),
        },
{
    if bytes.len() < 7 {
        return Err(ImageError::TooShort);
    }
    if bytes[0] != MAGIC0 || bytes[1] != MAGIC1 {
        return Err(ImageError::BadMagic);
    }
    if bytes[2] != VERSION {
        return Err(ImageError::BadVersion);
    }
    let layers = bytes[3];
    let rows = bytes[4];
    let cols = bytes[5];
    if layers == 0 || rows == 0 || cols == 0 {
        return Err(ImageError::BadLength);
    }
    assert(0 <= layers * rows <= 255 * 255) by (nonlinear_arith)
        requires
            0 <= layers <= 255,
            0 <= rows <= 255,
    ;
    assert(0 <= layers * rows * cols <= 255 * 255 * 255) by (nonlinear_arith)
        requires
            0 <= layers <= 255,
            0 <= rows <= 255,
            0 <= cols <= 255,
    ;
    let count: usize = (layers as usize) * (rows as usize) * (cols as usize);
    if bytes.len() != 7 + 4 * count {
        return Err(ImageError::BadLength);
    }
    let mut sum: u8 = 0;
    let mut k: usize = 0;
    while k < bytes.len() - 1
        invariant
            bytes@.len() >= 7,
            0 <= k <= bytes@.len() - 1,
            sum == checksum(bytes@.take(k as int)),
        decreases bytes@.len() - k,
    {
        proof {
            let next = bytes@.take(k + 1);
            assert(next.last() == bytes@[k as int]);
            assert(next.drop_last() =~= bytes@.take(k as int));
        }
        let wide: u32 = (sum as u32 + bytes[k] as u32) % 256;
        sum = wide as u8;
        k = k + 1;
    }
    assert(bytes@.take(k as int) =~= bytes@.drop_last());
    if sum != bytes[bytes.len() - 1] {
        return Err(ImageError::BadChecksum);
    }
    let mut cells: Vec<KeyAction> = Vec::new();
    let mut i: usize = 0;
    while i < count
        invariant
            0 <= i <= count,
            count <= 255 * 255 * 255,
            envelope_ok(bytes@),
            count == announced_cells(bytes@),
            bytes@.len() == 7 + 4 * count,
            cells@.len() == i,
            forall|j: int| 0 <= j < i ==> #[trigger] cell_at(bytes@, j) == Some(cells@[j]),
        decreases count - i,
    {
        let at: usize = 6 + 4 * i;
        match parse_cell(bytes[at], bytes[at + 1], bytes[at + 2], bytes[at + 3]) {
            None => {
                assert(cell_at(bytes@, i as int) is None);
                return Err(ImageError::BadCell);
            },
            Some(a) => {
                cells.push(a);
            },
        }
        i = i + 1;
    }
    let ghost parsed = cells@;
    assert(parsed =~= decoded_view(bytes@).cells);
    match Keymap::new(layers, rows, cols, cells) {
        Ok(km) => {
            assert forall|j: int| 0 <= j < announced_cells(bytes@) implies layer_ref_ok(
                (#[trigger] cell_at(bytes@, j)).unwrap(),
                bytes@[3] as nat,
            ) by {
                assert(layer_ref_ok(parsed[j], layers as nat));
            }
            Ok(km)
        },
        Err(KeymapError::UnknownLayer) => {
            proof {
                let j = choose|j: int|
                    0 <= j < parsed.len() && !layer_ref_ok(#[trigger] parsed[j], layers as nat);
                assert(cell_at(bytes@, j) == Some(parsed[j]));
            }
            Err(ImageError::UnknownLayer)
        },
        Err(KeymapError::BadShape) => {
            assert(false);
            Err(ImageError::BadLength)
        },
    }
}

/// The storage of the keymap: the image that is persisted, the room there
/// is for it, and the dimensions of the keyboard that it serves.
#[derive(Debug)]
pub struct Storage {
    image: Vec<u8>,
    capacity: usize,
    shape: Shape,
}

impl Storage {
    /// The persisted image.
    pub closed spec fn image_view(&self) -> Seq<u8> {
        self.image@
    }

    /// The room for the image, in bytes.
    pub closed spec fn capacity_view(&self) -> nat {
        self.capacity as nat
    }

    /// The dimensions of the keyboard.
    pub closed spec fn shape_view(&self) -> Shape {
        self.shape
    }

    /// A storage that holds the given image, as it was read at startup. An
    /// empty image stands for a storage that was never written.
    pub fn new(image: Vec<u8>, capacity: usize, shape: Shape) -> (res: Storage)
        ensures
            res.image_view() == image@,
            res.capacity_view() == capacity,
            res.shape_view() == shape,
    {
        Storage { image, capacity, shape }
    }

    /// The persisted image.
    pub fn image(&self) -> (res: &Vec<u8>)
        ensures
            res@ == self.image_view(),
    {
        &self.image
    }

    /// The room for the image, in bytes.
    pub fn capacity(&self) -> (res: usize)
        ensures
            res == self.capacity_view(),
    {
        self.capacity
    }

    /// The dimensions of the keyboard.
    pub fn shape(&self) -> (res: Shape)
        ensures
            res == self.shape_view(),
    {
        self.shape
    }

    /// The persisted keymap, or the default where the image fails a check or
    /// holds a keymap of other dimensions than the keyboard's. The result is
    /// never a keymap read in part.
    pub fn load(&self, default: Keymap) -> (res: Keymap)
        requires
            default@.wf(),
        ensures
            res@ == loaded_view(self.image_view(), self.shape_view(), default@),
            res@.wf(),
    {
        match decode_image(&self.image) {
            Ok(km) => {
                if km.layers() == self.shape.layers && km.rows() == self.shape.rows && km.cols()
                    == self.shape.cols {
                    km
                } else {
                    default
                }
            },
            Err(_) => default,
        }
    }

    /// Replaces the persisted image by that of the keymap. Where the keymap
    /// has other dimensions than the keyboard, or its image does not fit, the
    /// error is reported and the storage is unchanged, so that loading yields
    /// what it yielded before.
    pub fn save(&mut self, keymap: &Keymap) -> (res: Result<(), StorageError>)
        requires
            keymap@.wf(),
        ensures
            final(self).capacity_view() == old(self).capacity_view(),
            final(self).shape_view() == old(self).shape_view(),
            !old(self).shape_view().fits(keymap@) ==> res == Err::<(), StorageError>(
                StorageError::WrongShape,
            ),
            old(self).shape_view().fits(keymap@) && image_spec(keymap@).len() > old(
                self,
            ).capacity_view() ==> res == Err::<(), StorageError>(StorageError::TooLarge),
            old(self).shape_view().fits(keymap@) && image_spec(keymap@).len() <= old(
                self,
            ).capacity_view() ==> res is Ok,
            res is Ok ==> final(self).image_view() == image_spec(keymap@) && forall|
                default: KeymapView,
            | #[trigger]
                loaded_view(final(self).image_view(), final(self).shape_view(), default)
                    == keymap@,
            res is Err ==> final(self).image_view() == old(self).image_view() && forall|
                default: KeymapView,
            | #[trigger]
                loaded_view(final(self).image_view(), final(self).shape_view(), default)
                    == loaded_view(old(self).image_view(), old(self).shape_view(), default),
    {
        if keymap.layers() != self.shape.layers || keymap.rows() != self.shape.rows
            || keymap.cols() != self.shape.cols {
            return Err(StorageError::WrongShape);
        }
        let image = encode_image(keymap);
        if image.len() > self.capacity {
            return Err(StorageError::TooLarge);
        }
        proof {
            lemma_image_round_trip(keymap@);
        }
        self.image = image;
        Ok(())
    }
}

} // verus!
