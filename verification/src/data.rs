//! Level and texture data of a Wolfenstein 3D data set, as the rest of the library sees it.
//!
//! Positions are tile coordinates; a spawn stands in the middle of its tile, so the
//! world position of a spawn at tile `(x, y)` is `(x + 0.5, y + 0.5)`.

use vstd::prelude::*;

verus! {

/// Everything loaded from a data set: the first map, the wall pages and the
/// extension of the files they came from.
#[derive(Debug, Clone)]
pub struct GameAssets {
    pub map: TileMap,
    pub wall_textures: Vec<WallTexture>,
    pub source_extension: String,
}

/// A decoded map: the wall and info planes in row-major order, plus what was found in them.
#[derive(Debug, Clone)]
pub struct TileMap {
    pub width: usize,
    pub height: usize,
    pub walls: Vec<u16>,
    pub info: Vec<u16>,
    pub player_start: PlayerStart,
    pub doors: Vec<DoorSpawn>,
    pub enemies: Vec<EnemySpawn>,
}

/// The four headings a player can start with.
///
/// In world angles: `North` is -pi/2, `East` is 0, `South` is pi/2 and `West` is pi.
#[derive(Debug, Clone, Copy, PartialEq, Eq, Structural)]
pub enum Facing {
    North,
    East,
    South,
    West,
}

/// The tile the player starts on and the way they face.
#[derive(Debug, Clone, Copy, PartialEq, Eq, Structural)]
pub struct PlayerStart {
    pub tile_x: usize,
    pub tile_y: usize,
    pub facing: Facing,
}

/// One 64x64 wall page, column-major texels as stored in VSWAP.
#[derive(Debug, Clone)]
pub struct WallTexture {
    pub texels: Vec<u8>,
}

/// A door found in the wall plane.
#[derive(Debug, Clone, Copy, PartialEq, Eq, Structural)]
pub struct DoorSpawn {
    pub x: usize,
    pub y: usize,
    pub vertical: bool,
    pub lock: u8,
    pub tile: u16,
}

/// An enemy found in the info plane, standing in the middle of tile `(tile_x, tile_y)`.
#[derive(Debug, Clone, Copy, PartialEq, Eq, Structural)]
pub struct EnemySpawn {
    pub kind: EnemyKind,
    pub tile_x: usize,
    pub tile_y: usize,
    pub patrolling: bool,
}

#[derive(Debug, Clone, Copy, PartialEq, Eq, Structural)]
pub enum EnemyKind {
    Guard,
    Officer,
    Ss,
    Dog,
    Mutant,
}

/// The ways in which the bytes of a data set can be malformed.
#[derive(Debug, Clone, Copy, PartialEq, Eq, Structural)]
pub enum FormatError {
    /// MAPHEAD is too short
    MapheadTooShort,
    /// map index is out of MAPHEAD range
    MapIndexOutOfRange(usize),
    /// map index points to a sparse/empty entry
    SparseMapEntry(usize),
    /// map header has zero width/height
    ZeroSizedMap,
    /// GAMEMAPS map header out of bounds
    MapHeaderOutOfBounds,
    /// compressed plane has invalid length
    PlaneLengthInvalid,
    /// compressed plane overflows bounds
    PlaneOverflow,
    /// compressed plane is out of GAMEMAPS bounds
    PlaneOutOfBounds,
    /// carmack expansion produced no words
    CarmackEmpty,
    /// carmack near-tag escaped byte missing
    NearEscapeMissing,
    /// carmack near-tag back offset missing
    NearOffsetMissing,
    /// carmack near-tag invalid back-reference
    NearBackReference,
    /// carmack far-tag escaped byte missing
    FarEscapeMissing,
    /// carmack far-tag offset out of range
    FarOffsetOutOfRange,
    /// rlew input ended before target length
    RlewInputEnded,
    /// rlew marker missing repeat count
    RlewCountMissing,
    /// rlew marker missing repeated value
    RlewValueMissing,
    /// VSWAP header is too short
    VswapHeaderTooShort,
    /// VSWAP tables exceed file size
    VswapTablesTooLarge,
    /// VSWAP chunk bounds overflow
    ChunkBoundsOverflow,
    /// VSWAP wall chunk is out of bounds
    WallChunkOutOfBounds(usize),
    /// VSWAP contains no wall texture pages
    NoWallTextures,
    /// u16 read out of bounds
    U16OutOfBounds,
    /// u32 read out of bounds
    U32OutOfBounds,
}

/// Why loading a data set failed.
#[derive(Debug, Clone)]
pub enum DataError {
    /// None of the known data sets is complete in this directory.
    NoSupportedDataSet(String),
    /// A file could not be read.
    Io { path: String, message: String },
    /// A file was read but its contents are malformed.
    InvalidFormat(FormatError),
}

} // verus!
