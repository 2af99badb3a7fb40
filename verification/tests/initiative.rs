use initiative::Entity;
use initiative::EntityRecord;
use initiative::Roster;

#[test]
fn new_entity_starts_unrolled() {
    let e = Entity::new("Goblin", 6, 1);
    assert_eq!(e.name, "Goblin");
    assert_eq!(e.base_init, 6);
    assert_eq!(e.d6_init, 1);
    assert_eq!(e.cur_init, 0);
    assert!(!e.turn_taken);
}

#[test]
fn default_entity_is_the_fallback() {
    let e = Entity::default();
    assert_eq!(e.name, "Lattice");
    assert_eq!(e.base_init, 10);
    assert_eq!(e.d6_init, 1);
    assert_eq!(e.cur_init, 0);
    assert!(!e.turn_taken);
}

#[test]
fn initiative_stays_non_negative_through_any_sequence() {
    let mut e = Entity::new("A", 3, 2);
    e.take_turn();
    assert_eq!(e.cur_init, 0);
    e.interrupt(7);
    assert_eq!(e.cur_init, 0);
    e.increment(4);
    e.take_turn();
    assert_eq!(e.cur_init, 0);
    e.reroll_with(&vec![1, 1]);
    e.take_turn();
    assert_eq!(e.cur_init, 0);
}

#[test]
fn take_turn_spends_ten_and_marks_the_turn() {
    let mut e = Entity::new("A", 0, 0);
    e.increment(25);
    e.take_turn();
    assert_eq!(e.cur_init, 15);
    assert!(e.turn_taken);
    e.take_turn();
    assert_eq!(e.cur_init, 5);
}

#[test]
fn take_turn_converges_to_the_floor() {
    let mut e = Entity::new("A", 0, 0);
    e.increment(7);
    e.take_turn();
    assert_eq!(e.cur_init, 0);
    assert!(e.turn_taken);
    e.take_turn();
    assert_eq!(e.cur_init, 0);
    assert!(e.turn_taken);
    e.take_turn();
    assert_eq!(e.cur_init, 0);
}

#[test]
fn interrupt_below_cost_is_rejected_and_changes_nothing() {
    let mut e = Entity::new("A", 0, 0);
    e.increment(4);
    e.take_turn();
    assert_eq!(e.cur_init, 0);
    assert!(e.turn_taken);
    e.increment(4);
    let spent = e.interrupt(5);
    assert!(!spent);
    assert_eq!(e.cur_init, 4);
    assert!(e.turn_taken);
}

#[test]
fn interrupt_at_or_above_cost_spends_exactly_the_cost() {
    let mut e = Entity::new("A", 0, 0);
    e.increment(12);
    let spent = e.interrupt(5);
    assert!(spent);
    assert_eq!(e.cur_init, 7);
    assert!(!e.turn_taken);
    let spent_all = e.interrupt(7);
    assert!(spent_all);
    assert_eq!(e.cur_init, 0);
    assert!(!e.turn_taken);
}

#[test]
fn increment_adds_unconditionally() {
    let mut e = Entity::new("A", 0, 0);
    e.increment(1);
    e.increment(1);
    assert_eq!(e.cur_init, 2);
}

#[test]
fn increment_clamps_at_the_top() {
    let mut e = Entity::new("A", 0, 0);
    e.increment(u32::MAX);
    e.increment(1);
    assert_eq!(e.cur_init, u32::MAX);
}

#[test]
fn reroll_with_a_fixed_die_is_exact() {
    let mut e = Entity::new("A", 4, 3);
    e.reroll_with(&vec![5, 5, 5]);
    assert_eq!(e.cur_init, 4 + 3 * 5);
    e.turn_taken = true;
    e.reroll_with(&vec![2, 2, 2]);
    assert_eq!(e.cur_init, 4 + 3 * 2);
    assert!(e.turn_taken);
}

#[test]
fn reroll_replaces_instead_of_accumulating() {
    let mut e = Entity::new("A", 4, 2);
    e.reroll_with(&vec![6, 6]);
    assert_eq!(e.cur_init, 16);
    e.reroll_with(&vec![1, 1]);
    assert_eq!(e.cur_init, 6);
}

#[test]
fn reroll_init_lands_in_the_advertised_interval() {
    let mut e = Entity::new("A", 5, 3);
    for _ in 0..50 {
        e.reroll_init();
        assert!(e.cur_init >= 5 + 3);
        assert!(e.cur_init <= 5 + 18);
    }
}

#[test]
fn reroll_init_with_no_dice_is_the_base() {
    let mut e = Entity::new("A", 9, 0);
    e.reroll_init();
    assert_eq!(e.cur_init, 9);
}

#[test]
fn reroll_init_does_not_touch_turn_taken() {
    let mut e = Entity::new("A", 5, 2);
    e.take_turn();
    assert!(e.turn_taken);
    e.reroll_init();
    assert!(e.turn_taken);
}

#[test]
fn summary_renders_the_stable_form() {
    let e = Entity::new("Goblin", 6, 1);
    assert_eq!(e.summary(), "0 | Goblin (6+1d6)");
    let mut big = Entity::new("Dragon", 18, 4);
    big.increment(30);
    assert_eq!(big.summary(), "30 | Dragon (18+4d6)");
}

#[test]
fn add_appends_in_order() {
    let mut r = Roster::new();
    assert_eq!(r.len(), 0);
    r.add(Entity::new("A", 1, 0));
    r.add(Entity::new("B", 2, 0));
    assert_eq!(r.len(), 2);
    assert_eq!(r.get(0).name, "A");
    assert_eq!(r.get(1).name, "B");
}

#[test]
fn clear_empties_the_roster() {
    let mut r = Roster::new();
    r.add(Entity::new("A", 1, 0));
    r.add(Entity::new("B", 2, 0));
    r.clear();
    assert_eq!(r.len(), 0);
}

#[test]
fn remove_by_name_removes_every_match() {
    let mut r = Roster::new();
    r.add(Entity::new("Mook", 6, 1));
    r.add(Entity::new("Lattice", 10, 1));
    r.add(Entity::new("Mook", 6, 1));
    r.remove_by_name(&"Mook".to_owned());
    assert_eq!(r.len(), 1);
    assert_eq!(r.get(0).name, "Lattice");
}

#[test]
fn remove_by_name_keeps_the_order_of_the_rest() {
    let mut r = Roster::new();
    r.add(Entity::new("A", 1, 0));
    r.add(Entity::new("Mook", 2, 0));
    r.add(Entity::new("B", 3, 0));
    r.add(Entity::new("Mook", 4, 0));
    r.add(Entity::new("C", 5, 0));
    r.remove_by_name(&"Mook".to_owned());
    assert_eq!(r.len(), 3);
    assert_eq!(r.get(0).name, "A");
    assert_eq!(r.get(1).name, "B");
    assert_eq!(r.get(2).name, "C");
}

#[test]
fn remove_by_name_of_an_absent_name_removes_nothing() {
    let mut r = Roster::new();
    r.add(Entity::new("A", 1, 0));
    r.remove_by_name(&"B".to_owned());
    assert_eq!(r.len(), 1);
    assert_eq!(r.get(0).name, "A");
}

fn with_initiative(name: &str, cur: u32) -> Entity {
    let mut e = Entity::new(name, 0, 0);
    e.increment(cur);
    e
}

#[test]
fn sort_is_descending() {
    let mut r = Roster::new();
    r.add(with_initiative("low", 3));
    r.add(with_initiative("high", 20));
    r.add(with_initiative("mid", 11));
    r.sort_by_initiative_desc();
    assert_eq!(r.get(0).name, "high");
    assert_eq!(r.get(1).name, "mid");
    assert_eq!(r.get(2).name, "low");
}

#[test]
fn sort_is_stable_on_equal_initiative() {
    let mut r = Roster::new();
    r.add(with_initiative("A", 10));
    r.add(with_initiative("B", 10));
    r.add(with_initiative("C", 5));
    r.sort_by_initiative_desc();
    assert_eq!(r.get(0).name, "A");
    assert_eq!(r.get(1).name, "B");
    assert_eq!(r.get(2).name, "C");
}

#[test]
fn reroll_all_rolls_everyone_and_keeps_turns() {
    let mut r = Roster::new();
    let mut a = Entity::new("A", 4, 2);
    a.take_turn();
    r.add(a);
    r.add(Entity::new("B", 7, 1));
    r.reroll_all();
    assert!(r.get(0).cur_init >= 6 && r.get(0).cur_init <= 16);
    assert!(r.get(0).turn_taken);
    assert!(r.get(1).cur_init >= 8 && r.get(1).cur_init <= 13);
    assert!(!r.get(1).turn_taken);
}

#[test]
fn refresh_pass_skips_combatants_at_the_floor() {
    let mut r = Roster::new();
    let mut x = with_initiative("X", 0);
    x.turn_taken = true;
    let mut y = with_initiative("Y", 5);
    y.turn_taken = true;
    r.add(x);
    r.add(y);
    r.refresh_pass();
    assert!(r.get(0).turn_taken);
    assert!(!r.get(1).turn_taken);
    assert_eq!(r.get(0).cur_init, 0);
    assert_eq!(r.get(1).cur_init, 5);
}

#[test]
fn entity_record_round_trip_reproduces_every_field() {
    let mut e = Entity::new("Hero", 12, 3);
    e.reroll_with(&vec![2, 4, 6]);
    e.take_turn();
    let back = Entity::from_record(e.to_record());
    assert_eq!(back.name, e.name);
    assert_eq!(back.base_init, e.base_init);
    assert_eq!(back.d6_init, e.d6_init);
    assert_eq!(back.cur_init, e.cur_init);
    assert_eq!(back.turn_taken, e.turn_taken);
}

#[test]
fn roster_record_round_trip_reproduces_every_entity() {
    let mut r = Roster::new();
    let mut a = Entity::new("A", 4, 2);
    a.reroll_with(&vec![3, 3]);
    a.take_turn();
    r.add(a);
    r.add(Entity::new("B", 7, 1));
    let back = Roster::from_records(r.to_records());
    assert_eq!(back.len(), r.len());
    for i in 0..r.len() {
        assert_eq!(back.get(i).name, r.get(i).name);
        assert_eq!(back.get(i).base_init, r.get(i).base_init);
        assert_eq!(back.get(i).d6_init, r.get(i).d6_init);
        assert_eq!(back.get(i).cur_init, r.get(i).cur_init);
        assert_eq!(back.get(i).turn_taken, r.get(i).turn_taken);
    }
}

#[test]
fn missing_record_fields_fall_back_to_the_default() {
    let empty = EntityRecord {
        name: None,
        base_init: None,
        d6_init: None,
        cur_init: None,
        turn_taken: None,
    };
    let e = Entity::from_record(empty);
    assert_eq!(e.name, "Lattice");
    assert_eq!(e.base_init, 10);
    assert_eq!(e.d6_init, 1);
    assert_eq!(e.cur_init, 0);
    assert!(!e.turn_taken);

    let partial = EntityRecord {
        name: Some("Kept".to_owned()),
        base_init: Some(3),
        d6_init: None,
        cur_init: Some(8),
        turn_taken: Some(true),
    };
    let p = Entity::from_record(partial);
    assert_eq!(p.name, "Kept");
    assert_eq!(p.base_init, 3);
    assert_eq!(p.d6_init, 1);
    assert_eq!(p.cur_init, 8);
    assert!(p.turn_taken);
}
