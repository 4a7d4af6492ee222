use std::collections::{HashMap, HashSet};

use sparring::draft_draw::{DraftDrawData, DraftDrawRoom, EditAction, EditError, Team};

fn set_of(items: &[i64]) -> HashSet<i64> {
    items.iter().copied().collect()
}

fn sample_draw() -> DraftDrawData {
    DraftDrawData {
        rooms: vec![DraftDrawRoom {
            panel: set_of(&[0, 1]),
            og: set_of(&[2, 3]),
            oo: set_of(&[4, 5]),
            cg: set_of(&[6, 7]),
            co: set_of(&[8]),
        }],
        id_map: {
            let mut map = HashMap::new();
            for i in 0..=8 {
                map.insert(i as i64, i as u64);
            }
            map
        },
    }
}

#[test]
fn simple() {
    let data = sample_draw();

    // swap 8 and 6
    let new_draw = data.apply(EditAction::Swap(8, 6)).unwrap();

    let cg = new_draw.rooms[0].team(Team::Cg);
    let co = new_draw.rooms[0].team(Team::Co);

    assert!(cg.contains(&8) && !cg.contains(&6), "cg = {cg:?}, co = {co:?}");
    assert!(co.len() == 1 && co.contains(&6), "cg = {cg:?}, co = {co:?}");

    let same = data.apply(EditAction::Swap(6, 6)).unwrap();
    assert_eq!(same, data);
}

#[test]
fn swap_between_panel_and_team() {
    let data = sample_draw();
    let d = data.apply(EditAction::Swap(0, 2)).unwrap();
    assert_eq!(d.rooms[0].panel, set_of(&[2, 1]));
    assert_eq!(d.rooms[0].og, set_of(&[0, 3]));
    assert_eq!(d.id_map, data.id_map);
}

#[test]
fn swap_within_one_team_changes_nothing() {
    let data = sample_draw();
    let d = data.apply(EditAction::Swap(2, 3)).unwrap();
    assert_eq!(d, data);
}

#[test]
fn swapping_twice_restores_the_draw() {
    let data = sample_draw();
    let once = data.apply(EditAction::Swap(1, 8)).unwrap();
    assert_ne!(once, data);
    let twice = once.apply(EditAction::Swap(1, 8)).unwrap();
    assert_eq!(twice, data);
}

#[test]
fn swap_with_unknown_id_fails() {
    let data = sample_draw();
    assert_eq!(data.apply(EditAction::Swap(3, 42)).unwrap_err(), EditError::NoPersonWithId);
    assert_eq!(data.apply(EditAction::Swap(42, 3)).unwrap_err(), EditError::NoPersonWithId);
    // swapping an id with itself looks nothing up
    assert_eq!(data.apply(EditAction::Swap(42, 42)).unwrap(), data);
}

#[test]
fn remove_takes_person_out_of_every_place() {
    let data = sample_draw();
    let d = data.apply(EditAction::Remove(5)).unwrap();
    assert_eq!(d.rooms[0].oo, set_of(&[4]));
    assert_eq!(d.rooms[0].panel, data.rooms[0].panel);
    assert_eq!(d.rooms[0].og, data.rooms[0].og);
    assert_eq!(d.rooms[0].cg, data.rooms[0].cg);
    assert_eq!(d.rooms[0].co, data.rooms[0].co);
    assert_eq!(d.id_map, data.id_map);
    assert_eq!(data.apply(EditAction::Remove(9)).unwrap_err(), EditError::NoPersonWithId);
}

#[test]
fn swap_across_rooms() {
    let mut data = sample_draw();
    data.rooms.push(DraftDrawRoom {
        panel: set_of(&[10]),
        og: set_of(&[11]),
        oo: set_of(&[12]),
        cg: set_of(&[13]),
        co: set_of(&[14]),
    });
    data.id_map.insert(13, 20);
    let d = data.apply(EditAction::Swap(4, 20)).unwrap();
    assert_eq!(d.rooms[0].oo, set_of(&[13, 5]));
    assert_eq!(d.rooms[1].cg, set_of(&[4]));
}

#[test]
fn lookup_finds_the_person_with_an_id() {
    let data = sample_draw();
    assert_eq!(data.lookup_idx(7), Ok(7));
    assert_eq!(data.lookup_idx(100), Err(EditError::NoPersonWithId));
}

#[test]
fn generated_ids_are_distinct_and_small() {
    let mut data = sample_draw();
    data.id_map.clear();
    data.id_map.insert(99, 1000);
    data.generate_map();
    let ids: HashSet<u64> = (0..=8).map(|p| data.id_map[&p]).collect();
    assert_eq!(ids.len(), 9);
    assert!(ids.iter().all(|id| *id < 9));
    // the map is rebuilt: people who left the draw lose their ids
    assert!(!data.id_map.contains_key(&99));
    assert_eq!(data.id_map.len(), 9);
}

#[test]
fn stale_ids_are_not_shared() {
    let mut data = DraftDrawData {
        rooms: vec![DraftDrawRoom { panel: set_of(&[5]), og: set_of(&[]), oo: set_of(&[]), cg: set_of(&[]), co: set_of(&[]) }],
        id_map: HashMap::from([(42, 0)]),
    };
    data.generate_map();
    assert_eq!(data.id_map, HashMap::from([(5, 0)]));
}

#[test]
fn ids_follow_the_walk_order() {
    let mut data = sample_draw();
    data.rooms.push(DraftDrawRoom {
        panel: set_of(&[10]),
        og: set_of(&[11, 12]),
        oo: set_of(&[13]),
        cg: set_of(&[14, 15]),
        co: set_of(&[16, 17]),
    });
    data.id_map.clear();
    data.generate_map();
    let id = |p: i64| data.id_map[&p];
    let values: HashSet<u64> = data.id_map.values().copied().collect();
    assert_eq!(values, (0..17).collect::<HashSet<u64>>());
    assert_eq!([id(0), id(1)].iter().copied().collect::<HashSet<u64>>(), HashSet::from([0, 1]));
    assert!((2..4).contains(&id(2)) && (2..4).contains(&id(3)));
    assert_eq!(id(8), 8);
    assert_eq!(id(10), 9);
    assert!((10..12).contains(&id(11)));
    assert_eq!(id(13), 12);
    assert!((15..17).contains(&id(16)) && (15..17).contains(&id(17)));
}

#[test]
fn lookup_takes_the_first_entry_in_walk_order() {
    let mut data = sample_draw();
    data.id_map.insert(20, 3);
    let first = data.id_map.iter().find(|(_, v)| **v == 3).map(|(k, _)| *k).unwrap();
    assert_eq!(data.lookup_idx(3), Ok(first));
}

#[test]
fn edit_errors_read_as_messages() {
    assert_eq!(EditError::NoPersonWithId.to_string(), "invalid ID provided");
    assert_eq!(EditError::ParseErr("oops".to_string()).to_string(), "parse error: oops");
}

#[test]
fn swapping_keeps_everyone_in_the_draw() {
    let data = sample_draw();
    let d = data.apply(EditAction::Swap(4, 8)).unwrap();
    let everyone = |d: &DraftDrawData| {
        let mut all: Vec<i64> = Vec::new();
        for r in &d.rooms {
            for s in [&r.panel, &r.og, &r.oo, &r.cg, &r.co] {
                all.extend(s.iter().copied());
            }
        }
        all.sort();
        all
    };
    assert_eq!(everyone(&d), everyone(&data));
}

#[test]
fn removing_takes_out_only_that_person() {
    let data = sample_draw();
    let d = data.apply(EditAction::Remove(5)).unwrap();
    assert_eq!(d.rooms[0].oo, set_of(&[4]));
    assert_eq!(d.rooms[0].panel, data.rooms[0].panel);
    assert_eq!(d.rooms[0].og, data.rooms[0].og);
    assert_eq!(d.rooms[0].cg, data.rooms[0].cg);
    assert_eq!(d.rooms[0].co, data.rooms[0].co);
    assert_eq!(d.id_map, data.id_map);
}
