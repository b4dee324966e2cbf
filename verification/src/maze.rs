//! Grid model of the maze: cell kinds, the symbol table, and the
//! point-solidity query that the ray caster probes.
//!
//! A maze is a sequence of rows of cell symbols. Rows may have
//! different lengths; any probe outside the stored rows is treated as
//! solid ("outside the maze is always a wall"), which lets the ray
//! march terminate at the maze edge without a separate bounds case.
use vstd::prelude::*;

verus! {

/// Edge length of one grid cell in world units.
pub const CELL_SIZE: usize = 100;

/// The kind of one maze cell, decoded from its symbol.
#[derive(Clone, Copy, Debug, PartialEq, Eq, Structural)]
pub enum Cell {
    /// Passable floor.
    Empty,
    /// Wall drawn for the `+` symbol.
    WallA,
    /// Wall drawn for the `-` symbol.
    WallB,
    /// Wall drawn for the `|` symbol.
    WallC,
    /// The goal door: blocks rays (it is rendered as a textured wall);
    /// reaching it is judged by proximity outside the engine.
    Goal,
    /// The player's start marker: passable floor.
    Start,
    /// Any unrecognized symbol: solid, so a corrupt maze degrades to
    /// "looks like a wall" rather than letting rays escape.
    Unknown,
}

/// The fixed symbol table of the maze text format.
pub open spec fn spec_cell_of(sym: char) -> Cell {
    if sym == ' ' {
        Cell::Empty
    } else if sym == '+' {
        Cell::WallA
    } else if sym == '-' {
        Cell::WallB
    } else if sym == '|' {
        Cell::WallC
    } else if sym == 'g' {
        Cell::Goal
    } else if sym == 's' {
        Cell::Start
    } else {
        Cell::Unknown
    }
}

/// Decodes one maze symbol into its cell kind.
pub fn cell_of(sym: char) -> (c: Cell)
    ensures
        c == spec_cell_of(sym),
{
    if sym == ' ' {
        Cell::Empty
    } else if sym == '+' {
        Cell::WallA
    } else if sym == '-' {
        Cell::WallB
    } else if sym == '|' {
        Cell::WallC
    } else if sym == 'g' {
        Cell::Goal
    } else if sym == 's' {
        Cell::Start
    } else {
        Cell::Unknown
    }
}

/// Which cell kinds block a ray. Walls, the goal door, and unknown
/// symbols are solid; empty floor and the start marker are passable.
pub open spec fn spec_cell_solid(c: Cell) -> bool {
    match c {
        Cell::Empty => false,
        Cell::Start => false,
        Cell::WallA => true,
        Cell::WallB => true,
        Cell::WallC => true,
        Cell::Goal => true,
        Cell::Unknown => true,
    }
}

/// Whether a maze symbol denotes a solid cell.
pub open spec fn spec_symbol_solid(sym: char) -> bool {
    spec_cell_solid(spec_cell_of(sym))
}

/// Whether a maze symbol denotes a solid cell.
pub fn symbol_solid(sym: char) -> (r: bool)
    ensures
        r == spec_symbol_solid(sym),
{
    cell_solid(cell_of(sym))
}

/// Whether one cell kind blocks a ray.
pub fn cell_solid(c: Cell) -> (r: bool)
    ensures
        r == spec_cell_solid(c),
{
    match c {
        Cell::Empty => false,
        Cell::Start => false,
        Cell::WallA => true,
        Cell::WallB => true,
        Cell::WallC => true,
        Cell::Goal => true,
        Cell::Unknown => true,
    }
}

/// Solidity of the world point `(x, y)` against `grid`, where every
/// cell is a `unit` x `unit` square: the point is floor-divided into a
/// (row, column) index, anything outside the stored rows (including
/// negative coordinates) is solid, and an in-bounds cell is looked up
/// in the symbol table. A point exactly on a cell edge belongs to the
/// cell on the higher-coordinate side of the edge.
pub open spec fn spec_solid_point(grid: Seq<Seq<char>>, x: int, y: int, unit: int) -> bool {
    if x < 0 || y < 0 {
        true
    } else {
        let row = y / unit;
        let col = x / unit;
        if row >= grid.len() {
            true
        } else if col >= grid[row].len() {
            true
        } else {
            spec_symbol_solid(grid[row][col])
        }
    }
}

/// Point-solidity query of the ray caster, over fixed-point or plain
/// world coordinates: `unit` is the cell edge length in the same scale
/// as `x` and `y`.
pub fn solid_at(grid: &Vec<Vec<char>>, x: i64, y: i64, unit: i64) -> (r: bool)
    requires
        1 <= unit,
    ensures
        r == spec_solid_point(grid.deep_view(), x as int, y as int, unit as int),
{
    if x < 0 || y < 0 {
        return true;
    }
    let row = (y as u64) / (unit as u64);
    let col = (x as u64) / (unit as u64);
    if row >= grid.len() as u64 {
        return true;
    }
    let line: &Vec<char> = &grid[row as usize];
    if col >= line.len() as u64 {
        return true;
    }
    symbol_solid(line[col as usize])
}

/// Whether the world point `(x, y)` lies in a solid cell of `maze`,
/// with the fixed cell edge length `CELL_SIZE`.
pub fn is_wall(maze: &Vec<Vec<char>>, x: usize, y: usize) -> (r: bool)
    ensures
        r == spec_solid_point(maze.deep_view(), x as int, y as int, CELL_SIZE as int),
{
    let j = y / CELL_SIZE;
    let i = x / CELL_SIZE;
    if j >= maze.len() {
        return true;
    }
    let line: &Vec<char> = &maze[j];
    if i >= line.len() {
        return true;
    }
    symbol_solid(line[i])
}

} // verus!
