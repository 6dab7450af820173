use waterlevels::landscape::Landscape;
use waterlevels::request::simulate;
use waterlevels::request::LandscapeSize;

// Water levels are in half-units: one hour of rain per cell is 2.

fn total_water(pairs: &Vec<(usize, i128)>) -> i128 {
    let mut sum = 0;
    for p in pairs.iter() {
        sum += p.1;
    }
    sum
}

#[test]
fn single_cell_holds_all_its_rain() {
    // a single cell has nowhere to shed water: after 7 hours it holds
    // exactly 7 rain units
    let pairs = Landscape::new(vec![5]).rain(7).into_inner();
    assert_eq!(pairs, vec![(5, 14)]);
}

#[test]
fn two_equal_cells_keep_their_rain() {
    // equal heights are already at equilibrium: nothing moves
    let pairs = Landscape::new(vec![2, 2]).rain(1).into_inner();
    assert_eq!(pairs, vec![(2, 2), (2, 2)]);
}

#[test]
fn equal_cells_stay_level_over_hours() {
    let pairs = Landscape::new(vec![4, 4, 4, 4]).rain(2).into_inner();
    assert_eq!(pairs, vec![(4, 4), (4, 4), (4, 4), (4, 4)]);
}

#[test]
fn empty_landscape_stays_empty() {
    let pairs = Landscape::new(vec![]).rain(5).into_inner();
    assert_eq!(pairs.len(), 0);
}

#[test]
fn zero_hours_change_nothing() {
    let pairs = Landscape::new(vec![3, 1, 4]).rain(0).into_inner();
    assert_eq!(pairs, vec![(3, 0), (1, 0), (4, 0)]);
}

#[test]
fn boundary_asymmetry_four_cells() {
    // the regression pin for the right-hand recursion bound: on the ramp
    // [1, 2, 3, 4] one hour of rain cascades water down the slope, and the
    // run's final cell, excluded from the right-hand recursion, keeps none
    let pairs = Landscape::new(vec![1, 2, 3, 4]).rain(1).into_inner();
    assert_eq!(pairs, vec![(1, 4), (2, 4), (3, 0), (4, 0)]);
    // conservation: 4 cells, 1 hour, 2 half-units each
    let sum = total_water(&pairs);
    assert_eq!(sum, 8);
}

#[test]
fn conservation_with_a_deep_peak() {
    // water cascades off the peak; the totals still balance exactly, even
    // though one cell ends the hour below its own base
    let pairs = Landscape::new(vec![0, 10, 0, 0]).rain(1).into_inner();
    assert_eq!(pairs, vec![(0, 3), (10, -4), (0, 7), (0, 2)]);
    assert_eq!(total_water(&pairs), 8);
}

#[test]
fn conservation_over_several_hours() {
    // total water after h hours is exactly 2 * cells * h half-units
    let pairs = Landscape::new(vec![1, 2, 1]).rain(3).into_inner();
    assert_eq!(total_water(&pairs), 18);
    assert_eq!(pairs, vec![(1, 8), (2, 4), (1, 6)]);
}

#[test]
fn totals_never_decrease_between_hours() {
    // rain is additive and redistribution conserves: the running total can
    // only grow from one hour to the next
    let mut previous = 0;
    let mut hours = 0;
    while hours <= 4 {
        let pairs = Landscape::new(vec![3, 1, 3]).rain(hours).into_inner();
        let sum = total_water(&pairs);
        assert!(sum >= previous);
        assert_eq!(sum, 2 * 3 * (hours as i128));
        previous = sum;
        hours += 1;
    }
}

#[test]
fn two_hours_fill_a_valley() {
    // the valley cell collects most of the water; the two rims stay level
    // with each other
    let pairs = Landscape::new(vec![3, 1, 3]).rain(2).into_inner();
    assert_eq!(pairs, vec![(3, 2), (1, 8), (3, 2)]);
    assert_eq!(total_water(&pairs), 12);
}

#[test]
fn hundred_equal_cells_keep_their_rain() {
    // the largest landscape the service admits, all cells level: every hour
    // of rain stays where it falls
    let pairs = Landscape::new(vec![5; 100]).rain(3).into_inner();
    assert_eq!(pairs.len(), 100);
    for p in pairs.iter() {
        assert_eq!(*p, (5, 6));
    }
}

#[test]
fn long_ramp_regression() {
    // a twelve-cell ramp after one hour: water cascades far down the slope,
    // some cells end below their base, and the total still balances
    let bases = vec![1, 2, 3, 4, 5, 6, 7, 8, 9, 10, 11, 12];
    let pairs = Landscape::new(bases.clone()).rain(1).into_inner();
    let expected = vec![12, 10, 8, 4, 3, 1, -3, -3, -6, -2, 0, 0];
    for i in 0..12 {
        assert_eq!(pairs[i].0, bases[i]);
        assert_eq!(pairs[i].1, expected[i]);
    }
    assert_eq!(total_water(&pairs), 24);
}

#[test]
fn simulate_runs_the_whole_pipeline() {
    let pairs = simulate(vec![1, 2, 1], 1);
    assert_eq!(pairs, vec![(1, 3), (2, 0), (1, 3)]);
}

#[test]
fn simulate_empty_request() {
    let pairs = simulate(vec![], 1000);
    assert_eq!(pairs.len(), 0);
}

#[test]
fn size_limit_is_one_hundred_cells() {
    assert!(LandscapeSize { elements: 100 }.within_limit());
    assert!(!LandscapeSize { elements: 101 }.within_limit());
}

#[test]
fn hour_limit_is_one_thousand() {
    let ok = waterlevels::request::Landscape { levels: vec![1], hours: 1000 };
    assert!(ok.hours_within_limit());
    assert!(ok.size_within_limit());
    let too_long = waterlevels::request::Landscape { levels: vec![1], hours: 1001 };
    assert!(!too_long.hours_within_limit());
}
