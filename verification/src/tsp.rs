//! A problem instance: the cities to visit.

use crate::coordinates::{distance, Coordinate};
use crate::format::{holds_eof, load, load_from, parse_city, Flaw, FormatError, HEADER_LINES};
use vstd::prelude::*;

verus! {

/// The cities of a symmetric travelling salesman problem, addressed by
/// position.
#[derive(Debug, Clone)]
pub struct SymmetricTSP {
    pub coordinates: Vec<Coordinate>,
}

impl SymmetricTSP {
    /// The number of cities.
    pub open spec fn cities(&self) -> int {
        self.coordinates@.len() as int
    }

    /// The distance between the cities at positions `i` and `j`.
    pub open spec fn distance_spec(&self, i: int, j: int) -> int {
        distance(self.coordinates@[i]@, self.coordinates@[j]@)
    }

    /// Every position of `path` names a city.
    pub open spec fn visits_cities(&self, path: Seq<usize>) -> bool {
        forall|k: int| 0 <= k < path.len() ==> path[k] < self.cities()
    }

    /// The length of the way along `path`, from its first city to its last.
    pub open spec fn path_length(&self, path: Seq<usize>) -> int
        decreases path.len(),
    {
        if path.len() < 2 {
            0
        } else {
            self.path_length(path.drop_last()) + self.distance_spec(
                path[path.len() - 2] as int,
                path[path.len() - 1] as int,
            )
        }
    }

    /// The length of the round trip along `path` and back to its first city.
    pub open spec fn tour_length(&self, path: Seq<usize>) -> int {
        if path.len() == 0 {
            0
        } else {
            self.path_length(path) + self.distance_spec(path.last() as int, path[0] as int)
        }
    }

    /// The cities as points of the plane.
    pub open spec fn points(&self) -> Seq<(int, int)> {
        self.coordinates@.map_values(|c: Coordinate| c@)
    }

    /// Reads an instance from the lines of its text form: six header lines,
    /// then a line `<index> <x> <y>` for every city, then a line that holds
    /// `EOF`. Fails at the first line of a city that lacks a coordinate or
    /// holds one that cannot be read, and where no line holds `EOF`.
    pub fn from_lines(lines: &Vec<Vec<u8>>) -> (r: Result<Self, FormatError>)
        ensures
            match r {
                Ok(t) => load(lines@.map_values(|l: Vec<u8>| l@)) == Ok::<
                    Seq<(int, int)>,
                    FormatError,
                >(t.points()),
                Err(e) => load(lines@.map_values(|l: Vec<u8>| l@)) == Err::<
                    Seq<(int, int)>,
                    FormatError,
                >(e),
            },
    {
        let ghost text = lines@.map_values(|l: Vec<u8>| l@);
        let mut coordinates: Vec<Coordinate> = Vec::new();
        let mut i: usize = HEADER_LINES;
        while i < lines.len()
            invariant
                HEADER_LINES <= i,
                text == lines@.map_values(|l: Vec<u8>| l@),
                load(text) == match load_from(text, i as int) {
                    Ok(rest) => Ok::<Seq<(int, int)>, FormatError>(
                        coordinates@.map_values(|c: Coordinate| c@) + rest,
                    ),
                    Err(e) => Err(e),
                },
            decreases lines@.len() - i,
        {
            assert(text[i as int] == lines@[i as int]@);
            if holds_eof(lines[i].as_slice()) {
                assert(coordinates@.map_values(|c: Coordinate| c@) + Seq::<(int, int)>::empty()
                    =~= coordinates@.map_values(|c: Coordinate| c@));
                return Ok(Self { coordinates });
            }
            match parse_city(lines[i].as_slice()) {
                Err(Flaw::MissingField) => {
                    return Err(FormatError::MissingField(i));
                },
                Err(Flaw::BadNumber) => {
                    return Err(FormatError::BadNumber(i));
                },
                Ok(city) => {
                    let ghost before = coordinates@.map_values(|c: Coordinate| c@);
                    coordinates.push(Coordinate::new(city.0, city.1));
                    proof {
                        let now = coordinates@.map_values(|c: Coordinate| c@);
                        assert(now =~= before.push((city.0 as int, city.1 as int)));
                        match load_from(text, i + 1) {
                            Ok(rest) => {
                                assert(before + (seq![(city.0 as int, city.1 as int)] + rest)
                                    =~= now + rest);
                            },
                            Err(e) => {},
                        }
                    }
                },
            }
            i = i + 1;
        }
        Err(FormatError::MissingEof)
    }

    /// The instance with the given cities.
    pub fn new(coordinates: Vec<Coordinate>) -> (t: Self)
        ensures
            t.coordinates@ == coordinates@,
    {
        Self { coordinates }
    }

    /// The number of cities.
    pub fn city_count(&self) -> (n: usize)
        ensures
            n == self.cities(),
    {
        self.coordinates.len()
    }

    /// The distance between the cities at positions `c1_idx` and `c2_idx`.
    pub fn distance_between(&self, c1_idx: usize, c2_idx: usize) -> (d: u64)
        requires
            c1_idx < self.cities(),
            c2_idx < self.cities(),
        ensures
            d == self.distance_spec(c1_idx as int, c2_idx as int),
    {
        self.coordinates[c1_idx].distance_to(&self.coordinates[c2_idx])
    }
}

} // verus!
