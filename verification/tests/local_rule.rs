use waterlevels::rain::RainElement;
use waterlevels::sim::rain_flow;
use waterlevels::sim::RainFlow;

// Heights are in half-units, as everywhere in the library.

#[test]
fn lone_cell_absorbs_its_rain() {
    assert_eq!(rain_flow(None, 4, None), RainFlow::Stay);
}

#[test]
fn lower_left_neighbor_receives_the_unit() {
    assert_eq!(rain_flow(Some(2), 6, None), RainFlow::Left);
}

#[test]
fn equal_left_neighbor_receives_nothing() {
    assert_eq!(rain_flow(Some(6), 6, None), RainFlow::Stay);
    assert_eq!(rain_flow(Some(8), 6, None), RainFlow::Stay);
}

#[test]
fn lower_right_neighbor_receives_the_unit() {
    assert_eq!(rain_flow(None, 6, Some(2)), RainFlow::Right);
}

#[test]
fn equal_right_neighbor_receives_nothing() {
    assert_eq!(rain_flow(None, 6, Some(6)), RainFlow::Stay);
    assert_eq!(rain_flow(None, 6, Some(9)), RainFlow::Stay);
}

#[test]
fn two_lower_neighbors_split_the_unit() {
    assert_eq!(rain_flow(Some(2), 6, Some(4)), RainFlow::Split);
}

#[test]
fn single_lower_side_takes_it_all() {
    assert_eq!(rain_flow(Some(2), 6, Some(6)), RainFlow::Left);
    assert_eq!(rain_flow(Some(7), 6, Some(4)), RainFlow::Right);
}

#[test]
fn higher_neighbors_leave_the_rain_here() {
    assert_eq!(rain_flow(Some(9), 6, Some(7)), RainFlow::Stay);
    assert_eq!(rain_flow(Some(6), 6, Some(6)), RainFlow::Stay);
}

#[test]
fn contributions_always_total_one_unit() {
    let flows = [RainFlow::Stay, RainFlow::Left, RainFlow::Right, RainFlow::Split];
    for f in flows.iter() {
        let (l, here, r) = f.contributions();
        assert_eq!(l + here + r, 2);
    }
    assert_eq!(RainFlow::Split.contributions(), (1, 0, 1));
    assert_eq!(RainFlow::Stay.contributions(), (0, 2, 0));
}

#[test]
fn rain_element_magnitudes() {
    let full = RainElement::full();
    assert_eq!(full.as_half_units(), 2);
    let half = full.half();
    assert_eq!(half.as_half_units(), 1);
}
