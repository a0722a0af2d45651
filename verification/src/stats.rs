//! Formatting of the debug-overlay text: fixed-point world values rendered
//! as signed decimals with three fraction digits, and the three statistics
//! lines (ball position, ball velocity, paddle position) as ASCII bytes.
//! A font collaborator turns these lines into glyph runs for the overlay.

use vstd::prelude::*;

verus! {

use crate::fixed::SCALE;
use crate::state::GameState;
use vstd::arithmetic::div_mod::{
    lemma_div_pos_is_pos,
    lemma_mod_bound,
    lemma_multiply_divide_le,
    lemma_multiply_divide_lt,
};

/// The ASCII digit for `d`.
pub open spec fn digit(d: int) -> u8 {
    ((48 + d) as u8)
}

/// The ASCII rendering of the fixed-point value `v` as `+u.mmm`: an
/// explicit sign, the whole world units, a point, and the first three
/// fraction digits (micro-units truncated to milli-units).
pub open spec fn spec_format_fixed(v: int) -> Seq<u8> {
    let a = if v >= 0 {
        v
    } else {
        -v
    };
    let sign: u8 = if v >= 0 {
        43u8
    } else {
        45u8
    };
    let units = a / (SCALE as int);
    let milli = (a % (SCALE as int)) / 1000;
    seq![
        sign,
        digit(units),
        46u8,
        digit(milli / 100),
        digit((milli / 10) % 10),
        digit(milli % 10),
    ]
}

/// A label padded with spaces on the right up to twelve columns.
pub open spec fn pad12(label: Seq<u8>) -> Seq<u8> {
    if label.len() >= 12 {
        label
    } else {
        label + Seq::new((12 - label.len()) as nat, |i: int| 32u8)
    }
}

/// One debug line: the padded label, then `(x, y)` in fixed-point decimal.
pub open spec fn spec_stat_line(label: Seq<u8>, x: int, y: int) -> Seq<u8> {
    pad12(label) + seq![40u8] + spec_format_fixed(x) + seq![44u8, 32u8] + spec_format_fixed(y)
        + seq![41u8]
}

/// The label of the ball-position line: `pos:`.
pub open spec fn label_pos() -> Seq<u8> {
    seq![112u8, 111u8, 115u8, 58u8]
}

/// The label of the ball-velocity line: `vel:`.
pub open spec fn label_vel() -> Seq<u8> {
    seq![118u8, 101u8, 108u8, 58u8]
}

/// The label of the paddle-position line: `paddle_pos:`.
pub open spec fn label_paddle_pos() -> Seq<u8> {
    seq![112u8, 97u8, 100u8, 100u8, 108u8, 101u8, 95u8, 112u8, 111u8, 115u8, 58u8]
}

/// Renders a fixed-point value as six ASCII bytes, `+u.mmm`.
pub fn format_fixed(v: i64) -> (r: Vec<u8>)
    requires
        -9 * SCALE <= v <= 9 * SCALE,
    ensures
        r@ == spec_format_fixed(v as int),
        r@.len() == 6,
{
    let a: i64 = if v < 0 {
        -v
    } else {
        v
    };
    proof {
        lemma_div_pos_is_pos(a as int, SCALE as int);
        lemma_multiply_divide_le(a as int, SCALE as int, 9);
        lemma_mod_bound(a as int, SCALE as int);
        lemma_div_pos_is_pos((a as int) % (SCALE as int), 1000);
        lemma_multiply_divide_lt((a as int) % (SCALE as int), 1000, 1000);
    }
    let units = a / SCALE;
    let rem = a % SCALE;
    let milli = rem / 1000;
    proof {
        lemma_div_pos_is_pos(milli as int, 100);
        lemma_multiply_divide_lt(milli as int, 100, 10);
        lemma_div_pos_is_pos(milli as int, 10);
        lemma_multiply_divide_lt(milli as int, 10, 100);
        lemma_mod_bound((milli as int) / 10, 10);
        lemma_mod_bound(milli as int, 10);
        lemma_div_pos_is_pos((milli as int) / 10, 1);
        lemma_mod_bound(milli as int, 10);
    }
    let mut out: Vec<u8> = Vec::new();
    out.push(if v >= 0 { 43 } else { 45 });
    out.push(48 + (units as u8));
    out.push(46);
    out.push(48 + ((milli / 100) as u8));
    out.push(48 + (((milli / 10) % 10) as u8));
    out.push(48 + ((milli % 10) as u8));
    proof {
        assert(out@ =~= spec_format_fixed(v as int));
    }
    out
}

/// Renders one debug line from a label and a fixed-point pair.
#[verifier::loop_isolation(false)]
pub fn stat_line(label: &Vec<u8>, x: i64, y: i64) -> (r: Vec<u8>)
    requires
        label@.len() <= 12,
        -9 * SCALE <= x <= 9 * SCALE,
        -9 * SCALE <= y <= 9 * SCALE,
    ensures
        r@ == spec_stat_line(label@, x as int, y as int),
{
    let mut out: Vec<u8> = Vec::new();
    let mut i: usize = 0;
    while i < label.len()
        invariant
            i <= label@.len(),
            out@ == label@.take(i as int),
        decreases label@.len() - i,
    {
        let b = label[i];
        out.push(b);
        proof {
            assert(out@ =~= label@.take(i + 1));
        }
        i = i + 1;
    }
    proof {
        assert(label@.take(label@.len() as int) =~= label@);
    }
    while out.len() < 12
        invariant
            label@.len() <= out@.len() <= 12,
            out@.take(label@.len() as int) == label@,
            forall|j: int| label@.len() <= j < out@.len() ==> out@[j] == 32u8,
        decreases 12 - out.len(),
    {
        out.push(32);
        proof {
            assert(out@.take(label@.len() as int) =~= label@);
        }
    }
    proof {
        assert(out@ =~= pad12(label@));
    }
    out.push(40);
    let mut fx = format_fixed(x);
    out.append(&mut fx);
    out.push(44);
    out.push(32);
    let mut fy = format_fixed(y);
    out.append(&mut fy);
    out.push(41);
    proof {
        assert(out@ =~= spec_stat_line(label@, x as int, y as int));
    }
    out
}

impl GameState {
    /// The three debug-overlay lines: ball position, ball velocity, and
    /// paddle position, each as ASCII bytes.
    pub fn debug_stat_lines(&self) -> (lines: Vec<Vec<u8>>)
        requires
            self.wf(),
        ensures
            lines@.len() == 3,
            lines@[0]@ == spec_stat_line(
                label_pos(),
                self.ball_pos_x as int,
                self.ball_pos_y as int,
            ),
            lines@[1]@ == spec_stat_line(
                label_vel(),
                self.ball_vel_x as int,
                self.ball_vel_y as int,
            ),
            lines@[2]@ == spec_stat_line(
                label_paddle_pos(),
                self.paddle_pos_x as int,
                self.paddle_pos_y as int,
            ),
    {
        let mut pos_label: Vec<u8> = Vec::new();
        pos_label.push(112);
        pos_label.push(111);
        pos_label.push(115);
        pos_label.push(58);
        proof {
            assert(pos_label@ =~= label_pos());
        }
        let mut vel_label: Vec<u8> = Vec::new();
        vel_label.push(118);
        vel_label.push(101);
        vel_label.push(108);
        vel_label.push(58);
        proof {
            assert(vel_label@ =~= label_vel());
        }
        let mut paddle_label: Vec<u8> = Vec::new();
        paddle_label.push(112);
        paddle_label.push(97);
        paddle_label.push(100);
        paddle_label.push(100);
        paddle_label.push(108);
        paddle_label.push(101);
        paddle_label.push(95);
        paddle_label.push(112);
        paddle_label.push(111);
        paddle_label.push(115);
        paddle_label.push(58);
        proof {
            assert(paddle_label@ =~= label_paddle_pos());
        }
        let mut lines: Vec<Vec<u8>> = Vec::new();
        lines.push(stat_line(&pos_label, self.ball_pos_x, self.ball_pos_y));
        lines.push(stat_line(&vel_label, self.ball_vel_x, self.ball_vel_y));
        lines.push(stat_line(&paddle_label, self.paddle_pos_x, self.paddle_pos_y));
        lines
    }
}

} // verus!
