use neuroswarm::routing::{route_distance, shortest_path, tsp_greedy};

fn matrix() -> Vec<Vec<u32>> {
    // Zone 1 is a cheap relay between zones 0 and 2.
    vec![vec![0, 4, 10, 7], vec![4, 0, 3, 9], vec![10, 3, 0, 2], vec![7, 9, 2, 0]]
}

#[test]
fn shortest_path_goes_through_the_relay() {
    assert_eq!(shortest_path(&matrix(), 0, 2), vec![0, 1, 2]);
    assert_eq!(shortest_path(&matrix(), 0, 3), vec![0, 3]);
}

#[test]
fn shortest_path_to_self_is_the_start() {
    assert_eq!(shortest_path(&matrix(), 2, 2), vec![2]);
}

#[test]
fn greedy_tour_visits_nearest_first() {
    assert_eq!(tsp_greedy(&matrix(), 0, &vec![2, 3, 1]), vec![0, 1, 2, 3]);
    assert_eq!(tsp_greedy(&matrix(), 0, &vec![3, 3]), vec![0, 3]);
    assert_eq!(tsp_greedy(&matrix(), 0, &vec![]), vec![0]);
}

#[test]
fn route_distance_sums_legs() {
    assert_eq!(route_distance(&matrix(), &vec![0, 1, 2, 3]), Some(9));
    assert_eq!(route_distance(&matrix(), &vec![2]), Some(0));
    assert_eq!(route_distance(&matrix(), &vec![]), Some(0));
}

#[test]
fn route_distance_beyond_u32_is_none() {
    let w = vec![vec![0, u32::MAX], vec![u32::MAX, 0]];
    assert_eq!(route_distance(&w, &vec![0, 1]), Some(u32::MAX));
    assert_eq!(route_distance(&w, &vec![0, 1, 0]), None);
}
