//! The order in which the bays of a shelf are drawn.
//!
//! Bays are numbered column by column, starting at the bottom of each column.
//! A grid is drawn row by row from the top, so drawing needs the bay that
//! stands at each position of each row.

use vstd::prelude::*;
use vstd::arithmetic::div_mod::{lemma_fundamental_div_mod, lemma_fundamental_div_mod_converse};
use crate::err::SError;

verus! {

/// How the rows of the grid relate to the numbering within a column.
#[derive(Debug, Clone, Copy, PartialEq, Eq)]
pub enum SlotPrintOrder {
    /// The first bay of a column is drawn in the top row.
    TopLeftGoingDown,
    /// The first bay of a column is drawn in the bottom row.
    BottomLeftGoingUp,
}

/// A grid of `total_slots` bays can be `width` bays wide.
pub open spec fn valid_layout(total_slots: int, width: int) -> bool {
    width > 0 && total_slots >= 0 && total_slots % width == 0
}

impl SlotPrintOrder {
    /// The bay drawn in row `h`, column `w` of a grid that is `height` rows high.
    pub open spec fn bay_at(self, height: int, h: int, w: int) -> int {
        match self {
            SlotPrintOrder::TopLeftGoingDown => h + w * height,
            SlotPrintOrder::BottomLeftGoingUp => (height - h - 1) + w * height,
        }
    }

    /// The bays of a grid in drawing order: row by row, each row from the left.
    pub open spec fn spec_order(self, total_slots: int, width: int) -> Seq<int> {
        Seq::new(
            total_slots as nat,
            |i: int| self.bay_at(total_slots / width, i / width, i % width),
        )
    }

    /// The name of the policy.
    pub fn name(&self) -> (r: &'static str)
        ensures
            r@ == (match *self {
                SlotPrintOrder::TopLeftGoingDown => "TopLeftGoingDown"@,
                SlotPrintOrder::BottomLeftGoingUp => "BottomLeftGoingUp"@,
            }),
    {
        match *self {
            SlotPrintOrder::TopLeftGoingDown => "TopLeftGoingDown",
            SlotPrintOrder::BottomLeftGoingUp => "BottomLeftGoingUp",
        }
    }

    /// Lists the bays in drawing order, or refuses a width that does not give
    /// a rectangle.
    pub fn order(&self, total_slots: usize, width: usize) -> (r: Result<Vec<usize>, SError>)
        ensures
            valid_layout(total_slots as int, width as int) ==> r is Ok && r->Ok_0@.map_values(
                |v: usize| v as int,
            ) == self.spec_order(total_slots as int, width as int),
            !valid_layout(total_slots as int, width as int) ==> r == Err::<Vec<usize>, SError>(
                SError::InvalidLayout,
            ),
    {
        if width == 0 || total_slots % width != 0 {
            return Err(SError::InvalidLayout);
        }
        let height: usize = total_slots / width;
        proof {
            lemma_fundamental_div_mod(total_slots as int, width as int);
            assert(height * width == width * height) by (nonlinear_arith);
        }
        let mut res: Vec<usize> = Vec::new();
        let mut h: usize = 0;
        while h < height
            invariant
                width > 0,
                h <= height,
                height == total_slots / width,
                height * width == total_slots,
                res@.len() == h * width,
                forall|i: int|
                    0 <= i < res@.len() ==> res@[i] as int == self.bay_at(
                        height as int,
                        #[trigger] (i / width as int),
                        i % width as int,
                    ),
            decreases height - h,
        {
            let mut w: usize = 0;
            while w < width
                invariant
                    width > 0,
                    h < height,
                    w <= width,
                    height == total_slots / width,
                    height * width == total_slots,
                    res@.len() == h * width + w,
                    forall|i: int|
                        0 <= i < res@.len() ==> res@[i] as int == self.bay_at(
                            height as int,
                            #[trigger] (i / width as int),
                            i % width as int,
                        ),
                decreases width - w,
            {
                proof {
                    lemma_cell_bounds(height as int, width as int, h as int, w as int);
                    lemma_fundamental_div_mod_converse(
                        h * width + w,
                        width as int,
                        h as int,
                        w as int,
                    );
                }
                let bay: usize = match *self {
                    SlotPrintOrder::TopLeftGoingDown => h + w * height,
                    SlotPrintOrder::BottomLeftGoingUp => (height - h - 1) + w * height,
                };
                res.push(bay);
                w = w + 1;
            }
            proof {
                assert((h + 1) * width == h * width + width) by (nonlinear_arith);
            }
            h = h + 1;
        }
        proof {
            assert(res@.map_values(|v: usize| v as int) =~= self.spec_order(
                total_slots as int,
                width as int,
            ));
        }
        Ok(res)
    }
}

/// Both policies place a bay of the grid at every position of the grid.
pub proof fn lemma_cell_bounds(height: int, width: int, h: int, w: int)
    requires
        0 <= h < height,
        0 <= w < width,
    ensures
        0 <= w * height,
        h + w * height < height * width,
        (height - h - 1) + w * height < height * width,
        0 <= h * width + w < height * width,
{
    assert(0 <= w * height && w * height + height <= height * width) by (nonlinear_arith)
        requires
            0 <= w < width,
            0 < height,
    ;
    assert(0 <= h * width && h * width + width <= height * width) by (nonlinear_arith)
        requires
            0 <= h < height,
            0 < width,
    ;
}

/// Where a position of the drawing order lies in the grid, and which bay it
/// holds: row `i / width`, column `i % width`, and a bay whose column and
/// height within the column can be read back from its number.
pub proof fn lemma_position(order: SlotPrintOrder, total_slots: int, width: int, i: int)
    requires
        valid_layout(total_slots, width),
        0 <= i < total_slots,
    ensures
        0 <= i / width < total_slots / width,
        0 <= i % width < width,
        0 <= order.spec_order(total_slots, width)[i] < total_slots,
        order.spec_order(total_slots, width)[i] / (total_slots / width) == i % width,
        order.spec_order(total_slots, width)[i] % (total_slots / width) == (match order {
            SlotPrintOrder::TopLeftGoingDown => i / width,
            SlotPrintOrder::BottomLeftGoingUp => total_slots / width - i / width - 1,
        }),
{
    let height = total_slots / width;
    let h = i / width;
    let w = i % width;
    lemma_fundamental_div_mod(total_slots, width);
    lemma_fundamental_div_mod(i, width);
    assert(0 <= h < height) by (nonlinear_arith)
        requires
            i == width * h + w,
            0 <= w < width,
            0 <= i < width * height,
    ;
    lemma_cell_bounds(height, width, h, w);
    assert(height * width == width * height) by (nonlinear_arith);
    let up = match order {
        SlotPrintOrder::TopLeftGoingDown => h,
        SlotPrintOrder::BottomLeftGoingUp => height - h - 1,
    };
    let bay = order.spec_order(total_slots, width)[i];
    assert(bay == up + w * height);
    lemma_fundamental_div_mod_converse(bay, height, w, up);
}

/// The drawing order is a permutation of the bays: it is as long as the grid
/// has bays, names only bays of the grid, names none twice and leaves none out.
pub proof fn lemma_order_is_permutation(order: SlotPrintOrder, total_slots: int, width: int)
    requires
        valid_layout(total_slots, width),
    ensures
        order.spec_order(total_slots, width).len() == total_slots,
        forall|i: int|
            0 <= i < total_slots ==> 0 <= #[trigger] order.spec_order(total_slots, width)[i]
                < total_slots,
        forall|i: int, j: int|
            0 <= i < j < total_slots ==> #[trigger] order.spec_order(total_slots, width)[i]
                != #[trigger] order.spec_order(total_slots, width)[j],
        forall|k: int|
            0 <= k < total_slots ==> #[trigger] order.spec_order(total_slots, width).contains(k),
{
    let s = order.spec_order(total_slots, width);
    let height = total_slots / width;
    assert forall|i: int| 0 <= i < total_slots implies 0 <= #[trigger] s[i] < total_slots by {
        lemma_position(order, total_slots, width, i);
    }
    assert forall|i: int, j: int| 0 <= i < j < total_slots implies #[trigger] s[i]
        != #[trigger] s[j] by {
        lemma_position(order, total_slots, width, i);
        lemma_position(order, total_slots, width, j);
        lemma_fundamental_div_mod(i, width);
        lemma_fundamental_div_mod(j, width);
    }
    assert forall|k: int| 0 <= k < total_slots implies #[trigger] s.contains(k) by {
        let i = lemma_position_of_bay(order, total_slots, width, k);
        assert(s[i] == k);
    }
}

/// The position at which the drawing order shows bay `k`.
pub proof fn lemma_position_of_bay(
    order: SlotPrintOrder,
    total_slots: int,
    width: int,
    k: int,
) -> (i: int)
    requires
        valid_layout(total_slots, width),
        0 <= k < total_slots,
    ensures
        0 <= i < total_slots,
        order.spec_order(total_slots, width)[i] == k,
{
    let height = total_slots / width;
    lemma_fundamental_div_mod(total_slots, width);
    lemma_fundamental_div_mod(k, height);
    let w = k / height;
    let up = k % height;
    assert(height > 0) by (nonlinear_arith)
        requires
            total_slots == width * height,
            total_slots > 0,
            width > 0,
    ;
    assert(0 <= w < width) by (nonlinear_arith)
        requires
            k == height * w + up,
            0 <= up < height,
            0 <= k < width * height,
    ;
    let h = match order {
        SlotPrintOrder::TopLeftGoingDown => up,
        SlotPrintOrder::BottomLeftGoingUp => height - up - 1,
    };
    let i = h * width + w;
    lemma_cell_bounds(height, width, h, w);
    assert(height * width == width * height) by (nonlinear_arith);
    lemma_fundamental_div_mod_converse(i, width, h, w);
    assert(w * height == height * w) by (nonlinear_arith);
    i
}

} // verus!
