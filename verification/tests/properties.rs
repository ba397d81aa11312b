use grid_room::entity::Entity;
use grid_room::error::MapError;
use grid_room::grid_room::GridRoom;
use grid_room::utils::{Direction, MoveResult, Movement, Position, Size};

fn room(width: usize, height: usize) -> GridRoom {
    GridRoom::new("Test".to_string(), Size { width, height })
}

fn entity(name: &str) -> Entity {
    Entity {
        name: name.to_owned(),
    }
}

fn mv(distance: usize, direction: Direction) -> Movement {
    Movement {
        distance,
        direction,
    }
}

#[test]
fn add_entity_rejects_x_at_width() {
    let mut room = room(3, 3);
    let e = entity("A");
    let r = room.add_entity(&e, Position { x: 3, y: 0 }, false);
    assert_eq!(r, Err(MapError::OutOfBounds));
    assert_eq!(room.position_of(&e), None);
    for y in 0..3 {
        for x in 0..3 {
            assert!(room.entity_at(Position { x, y }).is_none());
        }
    }
}

#[test]
fn add_entity_rejects_y_at_height() {
    let mut room = room(4, 2);
    let e = entity("A");
    let r = room.add_entity(&e, Position { x: 1, y: 2 }, false);
    assert_eq!(r, Err(MapError::OutOfBounds));
    assert_eq!(room.position_of(&e), None);
}

#[test]
fn add_entity_places_and_tracks_mobile() {
    let mut room = room(3, 3);
    let e = entity("A");
    room.add_entity(&e, Position { x: 1, y: 2 }, false).unwrap();
    assert_eq!(room.position_of(&e), Some(Position { x: 1, y: 2 }));
    let occupant = room.entity_at(Position { x: 1, y: 2 }).unwrap();
    assert_eq!(occupant.name, "A");
}

#[test]
fn add_entity_does_not_track_static() {
    let mut room = room(3, 3);
    let e = entity("A");
    room.add_entity(&e, Position { x: 0, y: 0 }, true).unwrap();
    assert_eq!(room.position_of(&e), None);
    let occupant = room.entity_at(Position { x: 0, y: 0 }).unwrap();
    assert_eq!(occupant.name, "A");
}

#[test]
fn static_entity_cannot_move() {
    let mut room = room(3, 3);
    let e = entity("A");
    room.add_entity(&e, Position { x: 0, y: 0 }, true).unwrap();
    let r = room.move_entity(&e, mv(1, Direction::Up));
    assert_eq!(r, Err(MapError::OutOfBounds));
}

#[test]
fn unknown_entity_cannot_move() {
    let mut room = room(3, 3);
    let e = entity("A");
    let r = room.move_entity(&e, mv(1, Direction::Up));
    assert_eq!(r, Err(MapError::OutOfBounds));
}

#[test]
fn unobstructed_slide_reaches_target() {
    let mut room = room(5, 5);
    let e = entity("A");
    room.add_entity(&e, Position { x: 2, y: 2 }, false).unwrap();
    let r = room.move_entity(&e, mv(2, Direction::Up)).unwrap();
    assert!(matches!(r, MoveResult::Success));
    assert_eq!(room.position_of(&e), Some(Position { x: 2, y: 4 }));
}

#[test]
fn slides_in_every_direction() {
    let mut room = room(5, 5);
    let e = entity("A");
    room.add_entity(&e, Position { x: 2, y: 2 }, false).unwrap();
    assert!(matches!(
        room.move_entity(&e, mv(2, Direction::Right)).unwrap(),
        MoveResult::Success
    ));
    assert_eq!(room.position_of(&e), Some(Position { x: 4, y: 2 }));
    assert!(matches!(
        room.move_entity(&e, mv(3, Direction::Left)).unwrap(),
        MoveResult::Success
    ));
    assert_eq!(room.position_of(&e), Some(Position { x: 1, y: 2 }));
    assert!(matches!(
        room.move_entity(&e, mv(2, Direction::Down)).unwrap(),
        MoveResult::Success
    ));
    assert_eq!(room.position_of(&e), Some(Position { x: 1, y: 0 }));
    assert!(matches!(
        room.move_entity(&e, mv(4, Direction::Up)).unwrap(),
        MoveResult::Success
    ));
    assert_eq!(room.position_of(&e), Some(Position { x: 1, y: 4 }));
}

#[test]
fn first_step_out_of_bounds_is_an_error() {
    let mut room = room(5, 5);
    let e = entity("A");
    room.add_entity(&e, Position { x: 0, y: 0 }, false).unwrap();
    let r = room.move_entity(&e, mv(1, Direction::Down));
    assert_eq!(r, Err(MapError::OutOfBounds));
    let r = room.move_entity(&e, mv(3, Direction::Left));
    assert_eq!(r, Err(MapError::OutOfBounds));
    assert_eq!(room.position_of(&e), Some(Position { x: 0, y: 0 }));
    assert!(room.entity_at(Position { x: 0, y: 0 }).is_some());
}

#[test]
fn partial_out_of_bounds_stops_at_last_valid_tile() {
    let mut room = room(5, 5);
    let e = entity("A");
    room.add_entity(&e, Position { x: 2, y: 2 }, false).unwrap();
    let r = room.move_entity(&e, mv(3, Direction::Up)).unwrap();
    assert!(matches!(r, MoveResult::Failure));
    assert_eq!(room.position_of(&e), Some(Position { x: 2, y: 4 }));
    assert!(room.entity_at(Position { x: 2, y: 2 }).is_none());
}

#[test]
fn collision_stops_one_tile_short() {
    let mut room = room(5, 5);
    let a = entity("A");
    let b = entity("B");
    room.add_entity(&a, Position { x: 2, y: 2 }, false).unwrap();
    room.add_entity(&b, Position { x: 2, y: 4 }, false).unwrap();
    let r = room.move_entity(&a, mv(2, Direction::Up)).unwrap();
    match r {
        MoveResult::Collision(involved) => {
            assert_eq!(involved.len(), 2);
            assert_eq!(involved[0].name, "A");
            assert_eq!(involved[1].name, "B");
        }
        other => panic!("expected a collision, got {:?}", other),
    }
    assert_eq!(room.position_of(&a), Some(Position { x: 2, y: 3 }));
    assert_eq!(room.position_of(&b), Some(Position { x: 2, y: 4 }));
    assert!(room.entity_at(Position { x: 2, y: 2 }).is_none());
    assert_eq!(room.entity_at(Position { x: 2, y: 4 }).unwrap().name, "B");
}

#[test]
fn collision_on_the_first_tile_leaves_the_mover_in_place() {
    let mut room = room(5, 5);
    let a = entity("A");
    let b = entity("B");
    room.add_entity(&a, Position { x: 2, y: 2 }, false).unwrap();
    room.add_entity(&b, Position { x: 3, y: 2 }, false).unwrap();
    let r = room.move_entity(&a, mv(2, Direction::Right)).unwrap();
    assert!(matches!(r, MoveResult::Collision(_)));
    assert_eq!(room.position_of(&a), Some(Position { x: 2, y: 2 }));
    assert_eq!(room.entity_at(Position { x: 2, y: 2 }).unwrap().name, "A");
}

#[test]
fn collision_with_a_static_entity() {
    let mut room = room(5, 5);
    let a = entity("A");
    let wall = entity("Wall");
    room.add_entity(&wall, Position { x: 2, y: 4 }, true).unwrap();
    room.add_entity(&a, Position { x: 2, y: 2 }, false).unwrap();
    let r = room.move_entity(&a, mv(2, Direction::Up)).unwrap();
    match r {
        MoveResult::Collision(involved) => {
            assert_eq!(involved[1].name, "Wall");
        }
        other => panic!("expected a collision, got {:?}", other),
    }
    assert_eq!(room.position_of(&a), Some(Position { x: 2, y: 3 }));
}

#[test]
fn move_of_distance_zero_succeeds_in_place() {
    let mut room = room(3, 3);
    let e = entity("A");
    room.add_entity(&e, Position { x: 1, y: 1 }, false).unwrap();
    let r = room.move_entity(&e, mv(0, Direction::Up)).unwrap();
    assert!(matches!(r, MoveResult::Success));
    assert_eq!(room.position_of(&e), Some(Position { x: 1, y: 1 }));
}

#[test]
fn no_ghost_occupancy_after_moves() {
    let mut room = room(5, 5);
    let e = entity("A");
    room.add_entity(&e, Position { x: 0, y: 0 }, false).unwrap();
    room.move_entity(&e, mv(4, Direction::Right)).unwrap();
    room.move_entity(&e, mv(2, Direction::Up)).unwrap();
    let mut occupied: usize = 0;
    for y in 0..5 {
        for x in 0..5 {
            if room.entity_at(Position { x, y }).is_some() {
                occupied += 1;
                assert_eq!(room.position_of(&e), Some(Position { x, y }));
            }
        }
    }
    assert_eq!(occupied, 1);
}

#[test]
fn placement_overwrites_and_untracks_the_occupant() {
    let mut room = room(3, 3);
    let a = entity("A");
    let b = entity("B");
    room.add_entity(&a, Position { x: 1, y: 1 }, false).unwrap();
    room.add_entity(&b, Position { x: 1, y: 1 }, false).unwrap();
    assert_eq!(room.entity_at(Position { x: 1, y: 1 }).unwrap().name, "B");
    assert_eq!(room.position_of(&a), None);
    assert_eq!(room.position_of(&b), Some(Position { x: 1, y: 1 }));
}

#[test]
fn re_adding_a_mobile_entity_moves_it() {
    let mut room = room(3, 3);
    let a = entity("A");
    room.add_entity(&a, Position { x: 0, y: 0 }, false).unwrap();
    room.add_entity(&a, Position { x: 2, y: 2 }, false).unwrap();
    assert_eq!(room.position_of(&a), Some(Position { x: 2, y: 2 }));
    assert!(room.entity_at(Position { x: 0, y: 0 }).is_none());
    assert_eq!(room.entity_at(Position { x: 2, y: 2 }).unwrap().name, "A");
}

#[test]
fn degenerate_room_rejects_every_placement() {
    let mut room = room(0, 3);
    let e = entity("A");
    let r = room.add_entity(&e, Position { x: 0, y: 0 }, false);
    assert_eq!(r, Err(MapError::OutOfBounds));
}
