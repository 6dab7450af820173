use waterlevels::algo::rearrange;
use waterlevels::landscape_element::LandscapeElement;

// All water amounts below are in half-units: one hour of rain per cell is 2,
// a split between two neighbours moves 1 to each side.

fn land_of(bases: &[usize]) -> Vec<LandscapeElement> {
    let mut land: Vec<LandscapeElement> = Vec::new();
    for b in bases {
        land.push(LandscapeElement::new(*b));
    }
    land
}

fn rain_once(land: &mut Vec<LandscapeElement>) {
    let mut i = 0;
    while i < land.len() {
        let mut cell = land[i];
        cell.rain_one_hour();
        land[i] = cell;
        i += 1;
    }
}

fn waters(land: &Vec<LandscapeElement>) -> Vec<i128> {
    let mut out = Vec::new();
    for cell in land.iter() {
        out.push(cell.into_inner().1);
    }
    out
}

#[test]
fn test_one_element() {
    let mut land = land_of(&[1]);
    rain_once(&mut land);

    let len = land.len();
    rearrange(&mut land, 0, len);

    assert_eq!(waters(&land), vec![2]);
}

#[test]
fn test_two_eq_elements() {
    let mut land = land_of(&[1, 1]);
    rain_once(&mut land);

    let len = land.len();
    rearrange(&mut land, 0, len);

    assert_eq!(waters(&land), vec![2, 2]);
}

#[test]
fn test_three_eq_elements() {
    let mut land = land_of(&[1, 1, 1]);
    rain_once(&mut land);

    let len = land.len();
    rearrange(&mut land, 0, len);

    assert_eq!(waters(&land), vec![2, 2, 2]);
}

#[test]
fn valley_fill_one_hour() {
    // the middle cell is the maximum after one hour of rain on [1, 2, 1];
    // it splits one unit between its two lower neighbours and the run ends
    // at heights [5, 4, 5]: conservation holds (total water 6 = 2 * 3 * 1)
    let mut land = land_of(&[1, 2, 1]);
    rain_once(&mut land);

    let len = land.len();
    rearrange(&mut land, 0, len);

    assert_eq!(waters(&land), vec![3, 0, 3]);
    assert_eq!(land[0].current_height(), 5);
    assert_eq!(land[1].current_height(), 4);
    assert_eq!(land[2].current_height(), 5);
}

#[test]
fn rearrange_empty_run_is_noop() {
    let mut land: Vec<LandscapeElement> = Vec::new();
    rearrange(&mut land, 0, 0);
    assert_eq!(land.len(), 0);
}

#[test]
fn rearrange_single_cell_is_noop() {
    let mut land = land_of(&[7]);
    rain_once(&mut land);
    rearrange(&mut land, 0, 1);
    assert_eq!(waters(&land), vec![2]);
}

#[test]
fn rearrange_at_equilibrium_is_identity() {
    // cells of different bases but equal current heights: a pass moves
    // nothing, and neither does a second one
    let mut land = land_of(&[1, 2, 3]);
    let mut a = land[0];
    a.increase_height(6);
    land[0] = a;
    let mut b = land[1];
    b.increase_height(4);
    land[1] = b;
    let mut c = land[2];
    c.increase_height(2);
    land[2] = c;

    let len = land.len();
    rearrange(&mut land, 0, len);
    assert_eq!(waters(&land), vec![6, 4, 2]);
    rearrange(&mut land, 0, len);
    assert_eq!(waters(&land), vec![6, 4, 2]);
}

#[test]
fn rearrange_sub_range_leaves_rest_untouched() {
    // a pass over the middle [1, 4) of [9, 3, 9, 3, 9] only moves water
    // inside that run
    let mut land = land_of(&[9, 3, 9, 3, 9]);
    rain_once(&mut land);

    rearrange(&mut land, 1, 4);

    let w = waters(&land);
    assert_eq!(w[0], 2);
    assert_eq!(w[4], 2);
    assert_eq!(w[1] + w[2] + w[3], 6);
    // the maximum at index 2 split one unit between its lower neighbours
    assert_eq!(w, vec![2, 3, 0, 3, 2]);
}
