//! Helper methods and structures for working with cubes.
//!
//! ```text
//!         3  ---------  2
//!           /       / |
//!          /  up   /  |
//!      6  -------- 7  | 1
//!        |        |  /
//! west   |  south | /  east
//!        |        |/
//!      5  -------- 4
//! ```
//!
//! ```text
//!         7  ---------  6
//!           /       / |
//!          /  up   /  |
//!      2  -------- 3  | 5
//!        |        |  /
//! east   |  north | /  west
//!        |        |/
//!      1  -------- 0
//! ```

use vstd::prelude::*;
use vstd::string::*;

verus! {

/// A value representing face direction.
#[derive(Copy, Clone, PartialEq, PartialOrd, Eq, Ord, Debug, Structural)]
pub enum Face {
    /// Facing down.
    Down,
    /// Facing up.
    Up,
    /// Facing north.
    North,
    /// Facing south.
    South,
    /// Facing west.
    West,
    /// Facing east.
    East,
}

impl Face {
    /// The number of the face: 0 for down up to 5 for east.
    pub open spec fn index_spec(self) -> usize {
        match self {
            Face::Down => 0,
            Face::Up => 1,
            Face::North => 2,
            Face::South => 3,
            Face::West => 4,
            Face::East => 5,
        }
    }

    /// The face with the given number, if it is below 6.
    pub open spec fn of_index(number: usize) -> Option<Face> {
        if number == 0 {
            Some(Face::Down)
        } else if number == 1 {
            Some(Face::Up)
        } else if number == 2 {
            Some(Face::North)
        } else if number == 3 {
            Some(Face::South)
        } else if number == 4 {
            Some(Face::West)
        } else if number == 5 {
            Some(Face::East)
        } else {
            None
        }
    }

    /// The unit vector that points out of the face.
    pub open spec fn direction_spec(self) -> Seq<i32> {
        match self {
            Face::Down => seq![0i32, -1i32, 0i32],
            Face::Up => seq![0i32, 1i32, 0i32],
            Face::North => seq![0i32, 0i32, -1i32],
            Face::South => seq![0i32, 0i32, 1i32],
            Face::West => seq![-1i32, 0i32, 0i32],
            Face::East => seq![1i32, 0i32, 0i32],
        }
    }

    /// The face that the vector points out of, if it is one of the six unit
    /// vectors along an axis.
    pub open spec fn of_direction(d: Seq<i32>) -> Option<Face> {
        if d =~= Face::Down.direction_spec() {
            Some(Face::Down)
        } else if d =~= Face::Up.direction_spec() {
            Some(Face::Up)
        } else if d =~= Face::North.direction_spec() {
            Some(Face::North)
        } else if d =~= Face::South.direction_spec() {
            Some(Face::South)
        } else if d =~= Face::West.direction_spec() {
            Some(Face::West)
        } else if d =~= Face::East.direction_spec() {
            Some(Face::East)
        } else {
            None
        }
    }

    /// The name of the face, in lower case.
    pub open spec fn name_spec(self) -> Seq<char> {
        match self {
            Face::Down => "down"@,
            Face::Up => "up"@,
            Face::North => "north"@,
            Face::South => "south"@,
            Face::West => "west"@,
            Face::East => "east"@,
        }
    }

    /// The face of that name, if there is one.
    pub open spec fn of_name(s: Seq<char>) -> Option<Face> {
        if s == Face::Down.name_spec() {
            Some(Face::Down)
        } else if s == Face::Up.name_spec() {
            Some(Face::Up)
        } else if s == Face::North.name_spec() {
            Some(Face::North)
        } else if s == Face::South.name_spec() {
            Some(Face::South)
        } else if s == Face::West.name_spec() {
            Some(Face::West)
        } else if s == Face::East.name_spec() {
            Some(Face::East)
        } else {
            None
        }
    }

    /// The number of the face: 0 for down up to 5 for east.
    pub fn index(self) -> (number: usize)
        ensures
            number == self.index_spec(),
    {
        match self {
            Face::Down => 0,
            Face::Up => 1,
            Face::North => 2,
            Face::South => 3,
            Face::West => 4,
            Face::East => 5,
        }
    }

    /// Gets the direction of face.
    pub fn direction(self) -> (d: [i32; 3])
        ensures
            d@ == self.direction_spec(),
    {
        let d: [i32; 3] = match self {
            Face::Down => [0, -1, 0],
            Face::Up => [0, 1, 0],
            Face::North => [0, 0, -1],
            Face::South => [0, 0, 1],
            Face::West => [-1, 0, 0],
            Face::East => [1, 0, 0],
        };
        assert(d@ =~= self.direction_spec());
        d
    }

    /// Gets the face in a specific direction.
    pub fn from_direction(d: [i32; 3]) -> (face: Option<Self>)
        ensures
            face == Face::of_direction(d@),
    {
        let x: i32 = d[0];
        let y: i32 = d[1];
        let z: i32 = d[2];
        assert(d@ =~= seq![x, y, z]);
        if x == 0 && y == -1 && z == 0 {
            Some(Face::Down)
        } else if x == 0 && y == 1 && z == 0 {
            Some(Face::Up)
        } else if x == 0 && y == 0 && z == -1 {
            Some(Face::North)
        } else if x == 0 && y == 0 && z == 1 {
            Some(Face::South)
        } else if x == -1 && y == 0 && z == 0 {
            Some(Face::West)
        } else if x == 1 && y == 0 && z == 0 {
            Some(Face::East)
        } else {
            assert(seq![x, y, z][0] == x && seq![x, y, z][1] == y && seq![x, y, z][2] == z);
            None
        }
    }

    /// Convert number to face.
    pub fn from_usize(number: usize) -> (face: Option<Self>)
        ensures
            face == Face::of_index(number),
    {
        match number {
            0 => Some(Face::Down),
            1 => Some(Face::Up),
            2 => Some(Face::North),
            3 => Some(Face::South),
            4 => Some(Face::West),
            5 => Some(Face::East),
            _ => None,
        }
    }

    /// Reads a face from its lower-case name.
    pub fn parse(s: &str) -> (face: Result<Self, ParseError>)
        ensures
            face == (match Face::of_name(s@) {
                Some(f) => Ok::<Face, ParseError>(f),
                None => Err::<Face, ParseError>(ParseError),
            }),
    {
        let name = String::from_str(s);
        if name == String::from_str("down") {
            Ok(Face::Down)
        } else if name == String::from_str("up") {
            Ok(Face::Up)
        } else if name == String::from_str("north") {
            Ok(Face::North)
        } else if name == String::from_str("south") {
            Ok(Face::South)
        } else if name == String::from_str("west") {
            Ok(Face::West)
        } else if name == String::from_str("east") {
            Ok(Face::East)
        } else {
            Err(ParseError)
        }
    }
}

/// Every face is the face of its own number.
pub proof fn lemma_index_round_trip(face: Face)
    ensures
        Face::of_index(face.index_spec()) == Some(face),
        face.index_spec() < 6,
{
}

/// A number below 6 is the number of the face it stands for, and no other
/// number stands for a face.
pub proof fn lemma_of_index(number: usize)
    ensures
        Face::of_index(number).is_some() <==> number < 6,
        Face::of_index(number) matches Some(face) ==> face.index_spec() == number,
{
}

/// Every face is the face of its own direction, and a vector that stands
/// for a face is that face's direction.
pub proof fn lemma_direction_round_trip(face: Face, d: Seq<i32>)
    ensures
        Face::of_direction(face.direction_spec()) == Some(face),
        Face::of_direction(d) == Some(face) ==> d == face.direction_spec(),
{
    assert(Face::Down.direction_spec()[1] == -1);
    assert(Face::Up.direction_spec()[1] == 1);
    assert(Face::North.direction_spec()[2] == -1);
    assert(Face::South.direction_spec()[2] == 1);
    assert(Face::West.direction_spec()[0] == -1);
    assert(Face::East.direction_spec()[0] == 1);
}

/// Every face is the face of its own name.
pub proof fn lemma_name_round_trip(face: Face)
    ensures
        Face::of_name(face.name_spec()) == Some(face),
{
    reveal_strlit("down");
    reveal_strlit("up");
    reveal_strlit("north");
    reveal_strlit("south");
    reveal_strlit("west");
    reveal_strlit("east");
    assert("down"@.len() == 4 && "up"@.len() == 2 && "north"@.len() == 5);
    assert("south"@.len() == 5 && "west"@.len() == 4 && "east"@.len() == 4);
    assert("down"@[0] == 'd' && "west"@[0] == 'w' && "east"@[0] == 'e');
    assert("north"@[0] == 'n' && "south"@[0] == 's');
}

/// The error parsing face from string.
#[derive(Copy, Clone, PartialEq, Eq, Debug, Structural)]
pub struct ParseError;

impl std::str::FromStr for Face {
    type Err = ParseError;

    /// Reads a face from its lower-case name, as `Face::parse` does.
    fn from_str(s: &str) -> (face: Result<Self, ParseError>)
        ensures
            face == (match Face::of_name(s@) {
                Some(f) => Ok::<Face, ParseError>(f),
                None => Err::<Face, ParseError>(ParseError),
            }),
    {
        Face::parse(s)
    }
}

/// Number of faces of a cube.
pub const FACES: usize = 6;

/// Iterates through each face on a cube.
#[derive(Copy, Clone)]
pub struct FaceIterator(pub usize);

impl FaceIterator {
    /// Creates a new face iterator.
    pub fn new() -> (iter: Self)
        ensures
            iter.0 == 0,
    {
        FaceIterator(0)
    }

    /// The next face, from down to east, or `None` after the last one.
    pub fn next(&mut self) -> (face: Option<Face>)
        ensures
            face == Face::of_index(old(self).0),
            final(self).0 == if old(self).0 < FACES {
                old(self).0 + 1
            } else {
                old(self).0 as int
            },
    {
        let face = self.0;
        if face < FACES {
            self.0 = self.0 + 1;
            Face::from_usize(face)
        } else {
            None
        }
    }
}

} // verus!
