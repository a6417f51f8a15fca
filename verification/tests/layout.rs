use shelf_viewer::err::SError;
use shelf_viewer::layout::SlotPrintOrder;

fn shelf<const X: usize, const Y: usize>(order: [[usize; X]; Y]) -> Vec<usize> {
    order.into_iter().flatten().collect()
}

#[test]
fn test_going_down() {
    assert_eq!(
        SlotPrintOrder::TopLeftGoingDown.order(4, 2),
        Ok(shelf([
            [0, 2], //
            [1, 3]  //
        ])),
        "4,2"
    );
    assert_eq!(
        SlotPrintOrder::TopLeftGoingDown.order(9, 3),
        Ok(shelf([
            [0, 3, 6], //
            [1, 4, 7], //
            [2, 5, 8]  //
        ])),
        "9,3"
    );
}

#[test]
fn test_going_up() {
    assert_eq!(
        SlotPrintOrder::BottomLeftGoingUp.order(4, 2),
        Ok(shelf([
            [1, 3], //
            [0, 2]  //
        ])),
        "4,2"
    );
    assert_eq!(
        SlotPrintOrder::BottomLeftGoingUp.order(9, 3),
        Ok(shelf([
            [2, 5, 8], //
            [1, 4, 7], //
            [0, 3, 6]  //
        ])),
        "9,3"
    );
}

#[test]
fn order_is_a_permutation() {
    for (total, width) in [(0usize, 1usize), (1, 1), (6, 1), (6, 6), (12, 3), (24, 4), (60, 12)] {
        for policy in [SlotPrintOrder::TopLeftGoingDown, SlotPrintOrder::BottomLeftGoingUp] {
            let mut order = policy.order(total, width).unwrap();
            assert_eq!(order.len(), total);
            order.sort();
            assert_eq!(order, (0..total).collect::<Vec<usize>>());
        }
    }
}

#[test]
fn order_refuses_a_width_that_leaves_a_rest() {
    assert_eq!(SlotPrintOrder::BottomLeftGoingUp.order(10, 3), Err(SError::InvalidLayout));
    assert_eq!(SlotPrintOrder::TopLeftGoingDown.order(10, 4), Err(SError::InvalidLayout));
    assert_eq!(SlotPrintOrder::TopLeftGoingDown.order(1, 2), Err(SError::InvalidLayout));
}

#[test]
fn order_refuses_width_zero() {
    assert_eq!(SlotPrintOrder::BottomLeftGoingUp.order(4, 0), Err(SError::InvalidLayout));
    assert_eq!(SlotPrintOrder::BottomLeftGoingUp.order(0, 0), Err(SError::InvalidLayout));
}

#[test]
fn order_of_no_bays_is_empty() {
    assert_eq!(SlotPrintOrder::BottomLeftGoingUp.order(0, 3), Ok(vec![]));
}

#[test]
fn order_of_one_column() {
    assert_eq!(SlotPrintOrder::TopLeftGoingDown.order(3, 1), Ok(vec![0, 1, 2]));
    assert_eq!(SlotPrintOrder::BottomLeftGoingUp.order(3, 1), Ok(vec![2, 1, 0]));
}

#[test]
fn order_of_one_row() {
    assert_eq!(SlotPrintOrder::TopLeftGoingDown.order(3, 3), Ok(vec![0, 1, 2]));
    assert_eq!(SlotPrintOrder::BottomLeftGoingUp.order(3, 3), Ok(vec![0, 1, 2]));
}

#[test]
fn order_names() {
    assert_eq!(SlotPrintOrder::TopLeftGoingDown.name(), "TopLeftGoingDown");
    assert_eq!(SlotPrintOrder::BottomLeftGoingUp.name(), "BottomLeftGoingUp");
}
