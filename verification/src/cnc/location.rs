use vstd::prelude::*;
use vstd::slice::slice_subrange;
use crate::cnc::number::{
    first_index_of, is_first_index, lemma_first_index_unique, spec_number_prefix, Number,
};
use crate::cnc::text::chars_of;

verus! {

#[derive(Clone, Copy, Debug, PartialEq, Eq, Structural)]
pub enum Coordinate {
    X,
    Y,
    Z,
}

pub struct CoordinateParseResult<'a> {
    pub coordinate: Coordinate,
    pub number: Number,
    pub left: &'a [char],
}

/// A target position of a move: each axis is given or left as it was.
#[derive(Clone, Copy, Debug, PartialEq, Eq, Structural)]
pub struct Location {
    pub x: Option<Number>,
    pub y: Option<Number>,
    pub z: Option<Number>,
}

/// The axis named by the first character, and the characters after it.
pub open spec fn spec_coordinate_letter(s: Seq<char>) -> Option<(Coordinate, Seq<char>)> {
    if s.len() == 0 {
        None
    } else if s[0] == 'X' {
        Some((Coordinate::X, s.drop_first()))
    } else if s[0] == 'Y' {
        Some((Coordinate::Y, s.drop_first()))
    } else if s[0] == 'Z' {
        Some((Coordinate::Z, s.drop_first()))
    } else {
        None
    }
}

/// An axis letter followed by a number, and what is left after them.
pub open spec fn spec_coordinate(s: Seq<char>) -> Option<(Coordinate, Number, Seq<char>)> {
    match spec_coordinate_letter(s) {
        None => None,
        Some((c, rest)) => match spec_number_prefix(rest) {
            None => None,
            Some((n, k)) => Some((c, n, rest.skip(k))),
        },
    }
}

impl Location {
    pub open spec fn empty() -> Location {
        Location { x: None, y: None, z: None }
    }

    pub open spec fn get(self, c: Coordinate) -> Option<Number> {
        match c {
            Coordinate::X => self.x,
            Coordinate::Y => self.y,
            Coordinate::Z => self.z,
        }
    }

    pub open spec fn set(self, c: Coordinate, n: Number) -> Location {
        match c {
            Coordinate::X => Location { x: Some(n), ..self },
            Coordinate::Y => Location { y: Some(n), ..self },
            Coordinate::Z => Location { z: Some(n), ..self },
        }
    }

    /// One more coordinate read from the start of `s` into `self`; none if
    /// it does not parse or names an axis that is already given.
    pub open spec fn spec_new_coordinate(self, s: Seq<char>) -> Option<(Location, Seq<char>)> {
        match spec_coordinate(s) {
            None => None,
            Some((c, n, left)) => if self.get(c) is Some {
                None
            } else {
                Some((self.set(c, n), left))
            },
        }
    }

    /// A location is one to three coordinates, each naming a different axis,
    /// with nothing after them.
    pub open spec fn spec_parse(s: Seq<char>) -> Option<Location> {
        match Self::empty().spec_new_coordinate(s) {
            None => None,
            Some((l1, r1)) => if r1.len() == 0 {
                Some(l1)
            } else {
                match l1.spec_new_coordinate(r1) {
                    None => None,
                    Some((l2, r2)) => if r2.len() == 0 {
                        Some(l2)
                    } else {
                        match l2.spec_new_coordinate(r2) {
                            None => None,
                            Some((l3, r3)) => if r3.len() == 0 {
                                Some(l3)
                            } else {
                                None
                            },
                        }
                    },
                }
            },
        }
    }

    pub fn parse_coordinate_letter(string: &[char]) -> (res: Option<(Coordinate, &[char])>)
        requires
            string@.len() > 0,
        ensures
            match res {
                Some((c, rest)) => spec_coordinate_letter(string@) == Some((c, rest@)),
                None => spec_coordinate_letter(string@) is None,
            },
    {
        let first = string[0];
        let rest = slice_subrange(string, 1, string.len());
        assert(rest@ =~= string@.drop_first());
        if first == 'X' {
            Some((Coordinate::X, rest))
        } else if first == 'Y' {
            Some((Coordinate::Y, rest))
        } else if first == 'Z' {
            Some((Coordinate::Z, rest))
        } else {
            None
        }
    }

    pub fn parse_coordinate(string: &[char]) -> (res: Option<CoordinateParseResult<'_>>)
        requires
            string@.len() > 0,
        ensures
            match res {
                Some(r) => spec_coordinate(string@) == Some((r.coordinate, r.number, r.left@)),
                None => spec_coordinate(string@) is None,
            },
    {
        let (coordinate, string) = Self::parse_coordinate_letter(string)?;
        let (number, k) = Number::parse_prefix_chars(string)?;
        let left = slice_subrange(string, k, string.len());
        assert(left@ =~= string@.skip(k as int));
        Some(CoordinateParseResult { coordinate, number, left })
    }

    pub fn parse_new_coordinate<'a>(&mut self, string: &'a [char]) -> (res: Result<&'a [char], ()>)
        requires
            string@.len() > 0,
        ensures
            match res {
                Ok(left) => old(self).spec_new_coordinate(string@) == Some((*final(self), left@)),
                Err(_) => old(self).spec_new_coordinate(string@) is None && *final(self)
                    == *old(self),
            },
    {
        let r = match Self::parse_coordinate(string) {
            Some(r) => r,
            None => {
                return Err(());
            },
        };
        match r.coordinate {
            Coordinate::X => {
                if self.x.is_some() {
                    return Err(());
                }
                self.x = Some(r.number);
            },
            Coordinate::Y => {
                if self.y.is_some() {
                    return Err(());
                }
                self.y = Some(r.number);
            },
            Coordinate::Z => {
                if self.z.is_some() {
                    return Err(());
                }
                self.z = Some(r.number);
            },
        }
        Ok(r.left)
    }

    /// Reads a whole location (the text after `G00` or `G01`).
    pub fn parse_chars(s: &[char]) -> (res: Result<Location, ()>)
        requires
            s@.len() > 0,
        ensures
            match res {
                Ok(l) => Self::spec_parse(s@) == Some(l),
                Err(_) => Self::spec_parse(s@) is None,
            },
    {
        let mut location = Location { x: None, y: None, z: None };
        let left = location.parse_new_coordinate(s)?;
        if left.len() == 0 {
            return Ok(location);
        }
        let left = location.parse_new_coordinate(left)?;
        if left.len() == 0 {
            return Ok(location);
        }
        let left = location.parse_new_coordinate(left)?;
        if left.len() == 0 {
            return Ok(location);
        }
        Err(())
    }

    /// Reads a whole location from a string; the empty string is not accepted.
    pub fn parse_str(s: &str) -> (res: Result<Location, ()>)
        requires
            s@.len() > 0,
        ensures
            match res {
                Ok(l) => Self::spec_parse(s@) == Some(l),
                Err(_) => Self::spec_parse(s@) is None,
            },
    {
        let chars = chars_of(s);
        Self::parse_chars(chars.as_slice())
    }
}

impl Default for Location {
    fn default() -> (l: Location)
        ensures
            l == Location::empty(),
    {
        Location { x: None, y: None, z: None }
    }
}


/// The letter that names an axis.
pub open spec fn axis_letter(c: Coordinate) -> char {
    match c {
        Coordinate::X => 'X',
        Coordinate::Y => 'Y',
        Coordinate::Z => 'Z',
    }
}

/// `t` is exactly the text of the number `n`.
pub open spec fn is_number_text(t: Seq<char>, n: Number) -> bool {
    spec_number_prefix(t) == Some((n, t.len() as int))
}

proof fn lemma_first_index_prefix(t: Seq<char>, rest: Seq<char>, c: char)
    requires
        first_index_of(t, c) is Some,
    ensures
        first_index_of(t + rest, c) == first_index_of(t, c),
        0 <= first_index_of(t, c)->Some_0 < t.len(),
{
    let s = t + rest;
    let d = choose|i: int| is_first_index(t, c, i);
    assert(is_first_index(s, c, d)) by {
        assert forall|j: int| 0 <= j < d implies s[j] != c by {
            assert(s[j] == t[j]);
            assert(t[j] != c);
        }
        assert(s[d] == t[d]);
    }
    let w = choose|i: int| is_first_index(s, c, i);
    lemma_first_index_unique(s, c, w, d);
}

/// A number's text read at the start of a longer text ends where it ended.
pub proof fn lemma_number_prefix_extends(t: Seq<char>, rest: Seq<char>, n: Number)
    requires
        is_number_text(t, n),
    ensures
        spec_number_prefix(t + rest) == Some((n, t.len() as int)),
{
    let s = t + rest;
    assert(first_index_of(t, '.') is Some) by {
        reveal(spec_number_prefix);
    }
    lemma_first_index_prefix(t, rest, '.');
    let d = first_index_of(t, '.')->Some_0;
    assert(t.len() == d + 4) by {
        reveal(spec_number_prefix);
    }
    assert(s.take(d) =~= t.take(d));
    let sa = s.skip(d + 1);
    let ta = t.skip(d + 1);
    assert(sa.take(3) =~= ta.take(3));
    assert(sa[0] == ta[0] && sa[1] == ta[1] && sa[2] == ta[2]);
    assert(sa.len() >= 3 && ta.len() >= 3);
    reveal(spec_number_prefix);
}

proof fn lemma_one_coordinate(loc: Location, c: Coordinate, t: Seq<char>, n: Number, rest: Seq<char>)
    requires
        is_number_text(t, n),
    ensures
        loc.spec_new_coordinate(seq![axis_letter(c)] + t + rest) == if loc.get(c) is Some {
            None
        } else {
            Some((loc.set(c, n), rest))
        },
{
    let s = seq![axis_letter(c)] + t + rest;
    assert(s.drop_first() =~= t + rest);
    lemma_number_prefix_extends(t, rest, n);
    assert((t + rest).skip(t.len() as int) =~= rest);
}

/// The coordinates of a location may come in either order.
pub proof fn lemma_coordinates_commute(
    c1: Coordinate,
    t1: Seq<char>,
    n1: Number,
    c2: Coordinate,
    t2: Seq<char>,
    n2: Number,
)
    requires
        c1 != c2,
        is_number_text(t1, n1),
        is_number_text(t2, n2),
    ensures
        Location::spec_parse(seq![axis_letter(c1)] + t1 + seq![axis_letter(c2)] + t2)
            == Location::spec_parse(seq![axis_letter(c2)] + t2 + seq![axis_letter(c1)] + t1),
        Location::spec_parse(seq![axis_letter(c1)] + t1 + seq![axis_letter(c2)] + t2) == Some(
            Location::empty().set(c1, n1).set(c2, n2),
        ),
{
    let e = Location::empty();
    let a = seq![axis_letter(c1)] + t1 + seq![axis_letter(c2)] + t2;
    let b = seq![axis_letter(c2)] + t2 + seq![axis_letter(c1)] + t1;
    let r1 = seq![axis_letter(c2)] + t2;
    let r2 = seq![axis_letter(c1)] + t1;
    assert(a =~= seq![axis_letter(c1)] + t1 + r1);
    assert(b =~= seq![axis_letter(c2)] + t2 + r2);
    lemma_one_coordinate(e, c1, t1, n1, r1);
    lemma_one_coordinate(e.set(c1, n1), c2, t2, n2, Seq::<char>::empty());
    assert(r1 =~= seq![axis_letter(c2)] + t2 + Seq::<char>::empty());
    lemma_one_coordinate(e, c2, t2, n2, r2);
    lemma_one_coordinate(e.set(c2, n2), c1, t1, n1, Seq::<char>::empty());
    assert(r2 =~= seq![axis_letter(c1)] + t1 + Seq::<char>::empty());
    assert(e.set(c1, n1).set(c2, n2) == e.set(c2, n2).set(c1, n1));
}

/// An axis given twice makes the text no location.
pub proof fn lemma_repeated_coordinate(c: Coordinate, t1: Seq<char>, n1: Number, t2: Seq<char>, n2: Number)
    requires
        is_number_text(t1, n1),
        is_number_text(t2, n2),
    ensures
        Location::spec_parse(seq![axis_letter(c)] + t1 + seq![axis_letter(c)] + t2) is None,
{
    let e = Location::empty();
    let r1 = seq![axis_letter(c)] + t2;
    assert(seq![axis_letter(c)] + t1 + seq![axis_letter(c)] + t2 =~= seq![axis_letter(c)] + t1 + r1);
    lemma_one_coordinate(e, c, t1, n1, r1);
    lemma_one_coordinate(e.set(c, n1), c, t2, n2, Seq::<char>::empty());
    assert(r1 =~= seq![axis_letter(c)] + t2 + Seq::<char>::empty());
}

} // verus!
