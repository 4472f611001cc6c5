//! Operations on elementary moves: the symbolic direction of a move, the
//! decomposition of a move into single-axis steps, and the wire encoding the
//! external move sink accepts.

use vstd::prelude::*;
use vstd::string::StringExecFns;
use crate::grid::BoxMove;
use crate::model::BoxPosition;

verus! {

/// The character of one decimal digit.
pub open spec fn dec_digit(d: int) -> char {
    if d == 0 {
        '0'
    } else if d == 1 {
        '1'
    } else if d == 2 {
        '2'
    } else if d == 3 {
        '3'
    } else if d == 4 {
        '4'
    } else if d == 5 {
        '5'
    } else if d == 6 {
        '6'
    } else if d == 7 {
        '7'
    } else if d == 8 {
        '8'
    } else {
        '9'
    }
}

/// The decimal numeral of `n`, most significant digit first.
pub open spec fn dec_str(n: nat) -> Seq<char>
    decreases n,
{
    if n < 10 {
        seq![dec_digit(n as int)]
    } else {
        dec_str(n / 10).push(dec_digit((n % 10) as int))
    }
}

/// The literal for one decimal digit.
fn digit_str(d: usize) -> (r: &'static str)
    requires
        d < 10,
    ensures
        r@ == seq![dec_digit(d as int)],
{
    proof {
        reveal_strlit("0");
        reveal_strlit("1");
        reveal_strlit("2");
        reveal_strlit("3");
        reveal_strlit("4");
        reveal_strlit("5");
        reveal_strlit("6");
        reveal_strlit("7");
        reveal_strlit("8");
        reveal_strlit("9");
    }
    let r = if d == 0 {
        "0"
    } else if d == 1 {
        "1"
    } else if d == 2 {
        "2"
    } else if d == 3 {
        "3"
    } else if d == 4 {
        "4"
    } else if d == 5 {
        "5"
    } else if d == 6 {
        "6"
    } else if d == 7 {
        "7"
    } else if d == 8 {
        "8"
    } else {
        "9"
    };
    proof {
        assert(r@ =~= seq![dec_digit(d as int)]);
    }
    r
}

/// Append the decimal numeral of `n` to `out`.
fn push_dec(n: usize, out: &mut String)
    ensures
        final(out)@ == old(out)@ + dec_str(n as nat),
    decreases n,
{
    if n >= 10 {
        push_dec(n / 10, out);
        out.append(digit_str(n % 10));
        proof {
            assert(out@ =~= old(out)@ + dec_str(n as nat));
        }
    } else {
        out.append(digit_str(n));
        proof {
            assert(out@ =~= old(out)@ + dec_str(n as nat));
        }
    }
}

impl BoxMove {
    /// The symbolic label of the move's direction.
    pub open spec fn direction_spec(self) -> Seq<char> {
        let s = self.source_box_position;
        let d = self.destination_box_position;
        if d.z > s.z {
            "up"@
        } else if d.z < s.z {
            "down"@
        } else if d.y > s.y {
            "north"@
        } else if d.y < s.y {
            "south"@
        } else if d.x > s.x {
            "east"@
        } else {
            "west"@
        }
    }

    /// The wire encoding of the move: its box and its direction.
    pub open spec fn to_json_spec(self) -> Seq<char> {
        "{ \"box_id\": "@ + dec_str(self.box_id as nat) + ", \"direction\": \""@
            + self.direction_spec() + "\" }"@
    }

    /// The direction label of an elementary move, one of the six cardinal and
    /// vertical names.
    pub fn direction(&self) -> (r: String)
        requires
            self.source_box_position.elementary_step(self.destination_box_position),
        ensures
            r@ == self.direction_spec(),
    {
        let s = &self.source_box_position;
        let d = &self.destination_box_position;
        let name: &str = if d.z > s.z {
            "up"
        } else if d.z < s.z {
            "down"
        } else if d.y > s.y {
            "north"
        } else if d.y < s.y {
            "south"
        } else if d.x > s.x {
            "east"
        } else {
            "west"
        };
        name.to_owned()
    }

    /// A z-preserving move stands alone; a move that changes level splits
    /// into a vertical move followed by a lateral one through the cell at the
    /// source's column and the destination's level.
    pub open spec fn simplify_spec(self) -> Seq<BoxMove> {
        if self.source_box_position.z == self.destination_box_position.z {
            seq![self]
        } else {
            let mid = BoxPosition {
                x: self.source_box_position.x,
                y: self.source_box_position.y,
                z: self.destination_box_position.z,
            };
            seq![
                BoxMove {
                    box_id: self.box_id,
                    source_box_position: self.source_box_position,
                    destination_box_position: mid,
                },
                BoxMove {
                    box_id: self.box_id,
                    source_box_position: mid,
                    destination_box_position: self.destination_box_position,
                },
            ]
        }
    }

    /// Decompose the move into single-axis steps.
    pub fn simplify(&self) -> (r: Vec<BoxMove>)
        ensures
            r@ == self.simplify_spec(),
    {
        let z_same = self.source_box_position.z == self.destination_box_position.z;
        if z_same {
            let mut r: Vec<BoxMove> = Vec::new();
            r.push(*self);
            proof {
                assert(r@ =~= self.simplify_spec());
            }
            r
        } else {
            let mid_box_position = BoxPosition {
                x: self.source_box_position.x,
                y: self.source_box_position.y,
                z: self.destination_box_position.z,
            };
            let mut r: Vec<BoxMove> = Vec::new();
            r.push(
                BoxMove {
                    box_id: self.box_id,
                    source_box_position: self.source_box_position,
                    destination_box_position: mid_box_position,
                },
            );
            r.push(
                BoxMove {
                    box_id: self.box_id,
                    source_box_position: mid_box_position,
                    destination_box_position: self.destination_box_position,
                },
            );
            proof {
                assert(r@ =~= self.simplify_spec());
            }
            r
        }
    }

    /// Encode the move for the external move sink.
    pub fn to_json(&self) -> (r: String)
        requires
            self.source_box_position.elementary_step(self.destination_box_position),
        ensures
            r@ == self.to_json_spec(),
    {
        let mut s = String::from_str("{ \"box_id\": ");
        push_dec(self.box_id, &mut s);
        s.append(", \"direction\": \"");
        let dir = self.direction();
        s.append(dir.as_str());
        s.append("\" }");
        proof {
            assert(s@ =~= self.to_json_spec());
        }
        s
    }
}

} // verus!
