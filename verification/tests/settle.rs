use shimeji::environment::surface::settle_position;
use shimeji::format::animation::Edge;
use shimeji::state_machine::{SurfaceContext, SurfaceKind};

fn surface(edge_hit: Option<Edge>) -> SurfaceContext {
    SurfaceContext { kind: SurfaceKind::Air, edge_hit, floor_y: 1040, ceiling_y: 0 }
}

#[test]
fn landing_puts_the_feet_exactly_on_the_floor() {
    assert_eq!(settle_position(100, 950, 64, 3, 30, &surface(Some(Edge::Bottom))), (103, 976));
}

#[test]
fn reaching_the_ceiling_puts_the_top_exactly_on_it() {
    assert_eq!(settle_position(100, 4, 64, 0, -7, &surface(Some(Edge::Top))), (100, 0));
}

#[test]
fn otherwise_the_full_step_is_taken() {
    assert_eq!(settle_position(100, 500, 64, -2, 5, &surface(None)), (98, 505));
    assert_eq!(settle_position(0, 500, 64, -2, 5, &surface(Some(Edge::Left))), (-2, 505));
}
