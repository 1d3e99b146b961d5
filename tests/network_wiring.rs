use neuroswarm::wiring::{layers_in_bounds, plan_links, LinkPlan, WiringDraw};

fn draw(connect: bool, excitatory: bool) -> WiringDraw {
    WiringDraw { connect, excitatory }
}

#[test]
fn wiring_visits_pairs_source_major() {
    let from = vec![0u32, 1];
    let to = vec![5u32, 6, 7];
    let draws = vec![
        draw(true, true),
        draw(false, true),
        draw(true, false),
        draw(false, false),
        draw(true, true),
        draw(false, true),
    ];
    let links = plan_links(&from, &to, &draws);
    assert_eq!(
        links,
        vec![
            LinkPlan { id: 0, pre: 0, post: 5, excitatory: true },
            LinkPlan { id: 1, pre: 0, post: 7, excitatory: false },
            LinkPlan { id: 2, pre: 1, post: 6, excitatory: true },
        ]
    );
}

#[test]
fn wiring_with_no_draws_accepted_is_empty() {
    let from = vec![0u32, 1, 2];
    let to = vec![0u32, 1];
    let draws = vec![draw(false, true); 6];
    assert!(plan_links(&from, &to, &draws).is_empty());
    assert!(plan_links(&vec![], &to, &vec![]).is_empty());
}

#[test]
fn wiring_skips_layers_outside_the_network() {
    assert!(layers_in_bounds(0, 1, 2));
    assert!(!layers_in_bounds(0, 2, 2));
    assert!(!layers_in_bounds(3, 0, 2));
    assert!(!layers_in_bounds(0, 0, 0));
}
