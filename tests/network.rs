use tothe::kind::{compatible, PipeSegment};
use tothe::network::{Junction, Pipe, PipeNetwork, Tile};
use tothe::tilemap::{neighbor_positions, TilePos, TilemapSize};

fn junction_tile(segment: Option<PipeSegment>) -> Tile {
    Tile { segment, junction: Some(Junction::new()) }
}

fn receivers(net: &PipeNetwork, pos: TilePos) -> Vec<usize> {
    let tile = net.tile(pos).expect("tile");
    let junction = tile.junction.as_ref().expect("junction");
    junction.pipes.iter().map(|p| p.receiver).collect()
}

#[test]
fn int_cell_values_give_colours() {
    assert_eq!(PipeSegment::from_int_cell(1), Some(PipeSegment::Blue));
    assert_eq!(PipeSegment::from_int_cell(2), Some(PipeSegment::Red));
    assert_eq!(PipeSegment::from_int_cell(0), None);
    assert_eq!(PipeSegment::from_int_cell(3), None);
}

#[test]
fn compatibility_of_colours() {
    let b = Some(PipeSegment::Blue);
    let r = Some(PipeSegment::Red);
    assert!(compatible(b, b));
    assert!(compatible(r, r));
    assert!(!compatible(b, r));
    assert!(!compatible(r, b));
    assert!(compatible(None, b));
    assert!(compatible(r, None));
    assert!(compatible(None, None));
}

#[test]
fn neighbors_are_bounds_checked() {
    let size = TilemapSize { x: 3, y: 2 };
    let n = neighbor_positions(&size, &TilePos::new(0, 0));
    assert_eq!(n, [Some(TilePos::new(1, 0)), Some(TilePos::new(0, 1)), None, None]);
    let n = neighbor_positions(&size, &TilePos::new(2, 1));
    assert_eq!(n, [None, None, Some(TilePos::new(1, 1)), Some(TilePos::new(2, 0))]);
    let n = neighbor_positions(&size, &TilePos::new(1, 0));
    assert_eq!(
        n,
        [Some(TilePos::new(2, 0)), Some(TilePos::new(1, 1)), Some(TilePos::new(0, 0)), None]
    );
}

#[test]
fn junction_clear_and_push() {
    let mut j = Junction::new();
    j.push_pipe(4);
    j.push_pipe(7);
    assert_eq!(j.pipes, vec![Pipe::new(4), Pipe::new(7)]);
    j.clear();
    assert!(j.pipes.is_empty());
}

#[test]
fn chain_of_untyped_junctions_is_joined_both_ways() {
    let mut net = PipeNetwork::new(TilemapSize { x: 3, y: 1 });
    for x in 0..3 {
        net.set_tile(TilePos::new(x, 0), junction_tile(None));
    }
    net.build_pipe_network();
    assert_eq!(receivers(&net, TilePos::new(0, 0)), vec![1]);
    assert_eq!(receivers(&net, TilePos::new(1, 0)), vec![2, 0]);
    assert_eq!(receivers(&net, TilePos::new(2, 0)), vec![1]);
}

#[test]
fn different_colours_are_not_joined() {
    let mut net = PipeNetwork::new(TilemapSize { x: 3, y: 1 });
    net.set_tile(TilePos::new(0, 0), junction_tile(Some(PipeSegment::Blue)));
    net.set_tile(TilePos::new(1, 0), junction_tile(Some(PipeSegment::Red)));
    net.set_tile(TilePos::new(2, 0), junction_tile(Some(PipeSegment::Red)));
    net.build_pipe_network();
    assert!(receivers(&net, TilePos::new(0, 0)).is_empty());
    assert_eq!(receivers(&net, TilePos::new(1, 0)), vec![2]);
    assert_eq!(receivers(&net, TilePos::new(2, 0)), vec![1]);
}

#[test]
fn uncoloured_tile_joins_any_colour() {
    let mut net = PipeNetwork::new(TilemapSize { x: 3, y: 1 });
    net.set_tile(TilePos::new(0, 0), junction_tile(Some(PipeSegment::Blue)));
    net.set_tile(TilePos::new(1, 0), junction_tile(None));
    net.set_tile(TilePos::new(2, 0), junction_tile(Some(PipeSegment::Red)));
    net.build_pipe_network();
    assert_eq!(receivers(&net, TilePos::new(0, 0)), vec![1]);
    assert_eq!(receivers(&net, TilePos::new(1, 0)), vec![2, 0]);
    assert_eq!(receivers(&net, TilePos::new(2, 0)), vec![1]);
}

#[test]
fn tile_without_junction_gets_no_pipes_and_none_to_it() {
    let mut net = PipeNetwork::new(TilemapSize { x: 2, y: 1 });
    net.set_tile(TilePos::new(0, 0), junction_tile(None));
    net.set_tile(TilePos::new(1, 0), Tile { segment: None, junction: None });
    net.build_pipe_network();
    assert!(receivers(&net, TilePos::new(0, 0)).is_empty());
    assert!(net.tile(TilePos::new(1, 0)).unwrap().junction.is_none());
}

#[test]
fn isolated_junction_has_no_pipes() {
    let mut net = PipeNetwork::new(TilemapSize { x: 3, y: 3 });
    net.set_tile(TilePos::new(1, 1), junction_tile(None));
    net.set_tile(TilePos::new(2, 2), junction_tile(None));
    net.build_pipe_network();
    assert!(receivers(&net, TilePos::new(1, 1)).is_empty());
    assert!(receivers(&net, TilePos::new(2, 2)).is_empty());
}

#[test]
fn rebuild_drops_old_pipes() {
    let mut net = PipeNetwork::new(TilemapSize { x: 2, y: 1 });
    net.set_tile(TilePos::new(0, 0), junction_tile(None));
    net.set_tile(TilePos::new(1, 0), junction_tile(None));
    net.build_pipe_network();
    assert_eq!(receivers(&net, TilePos::new(0, 0)), vec![1]);
    net.remove_tile(TilePos::new(1, 0));
    net.build_pipe_network();
    assert!(receivers(&net, TilePos::new(0, 0)).is_empty());
    assert!(net.tile(TilePos::new(1, 0)).is_none());
}

#[test]
fn cross_junction_pipe_order_is_right_up_left_down() {
    let mut net = PipeNetwork::new(TilemapSize { x: 3, y: 3 });
    for (x, y) in [(1, 1), (2, 1), (1, 2), (0, 1), (1, 0)] {
        net.set_tile(TilePos::new(x, y), junction_tile(None));
    }
    net.build_pipe_network();
    // cell index is y * 3 + x
    assert_eq!(receivers(&net, TilePos::new(1, 1)), vec![5, 7, 3, 1]);
    assert_eq!(net.junction(4).unwrap().pipes.len(), 4);
    assert!(net.junction(0).is_none());
    assert!(net.junction(99).is_none());
}

#[test]
fn tile_off_grid_is_none() {
    let net = PipeNetwork::new(TilemapSize { x: 2, y: 2 });
    assert!(net.tile(TilePos::new(2, 0)).is_none());
    assert!(net.tile(TilePos::new(0, 0)).is_none());
    assert_eq!(net.size(), TilemapSize { x: 2, y: 2 });
}
