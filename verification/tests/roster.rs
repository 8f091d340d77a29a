use agent_kit::roster::{put_upstream, Card, PutRefusal, Roster, RosterError};

fn card(id: &str, enabled: bool, body: u32) -> Card<u32> {
    Card { id: id.to_string(), enabled, body }
}

#[test]
fn put_then_get_reads_back_the_card() {
    let mut r: Roster<u32> = Roster::new(4);
    assert_eq!(r.put(card("a", true, 1)), Ok(()));
    let c = r.get("a").unwrap();
    assert_eq!((c.id.as_str(), c.enabled, c.body), ("a", true, 1));
    assert_eq!(r.get("b").err(), Some(RosterError::NotFound));
}

#[test]
fn put_replaces_in_place() {
    let mut r: Roster<u32> = Roster::new(2);
    r.put(card("a", true, 1)).unwrap();
    r.put(card("b", true, 2)).unwrap();
    r.put(card("a", false, 9)).unwrap();
    let ids: Vec<&str> = r.list().iter().map(|c| c.id.as_str()).collect();
    assert_eq!(ids, vec!["a", "b"], "a replaced in place, order kept");
    assert_eq!(r.get("a").unwrap().body, 9);
}

#[test]
fn full_roster_refuses_a_new_card_but_accepts_a_replacement() {
    let mut r: Roster<u32> = Roster::new(1);
    r.put(card("a", true, 1)).unwrap();
    assert_eq!(r.put(card("b", true, 2)), Err(RosterError::Full));
    assert_eq!(r.list().len(), 1);
    assert_eq!(r.put(card("a", true, 3)), Ok(()));
}

#[test]
fn hostile_ids_are_refused_everywhere() {
    let mut r: Roster<u32> = Roster::new(4);
    for bad in ["", ".", "..", "-x", "../etc", "a b", "a/b"] {
        assert_eq!(r.put(card(bad, true, 0)), Err(RosterError::InvalidId), "{bad:?}");
        assert_eq!(r.get(bad).err(), Some(RosterError::InvalidId));
        assert_eq!(r.delete(bad), Err(RosterError::InvalidId));
        assert_eq!(r.set_enabled(bad, true), Err(RosterError::InvalidId));
    }
    assert!(r.list().is_empty());
}

#[test]
fn delete_reports_presence_and_removes() {
    let mut r: Roster<u32> = Roster::new(4);
    r.put(card("a", true, 1)).unwrap();
    assert_eq!(r.delete("a"), Ok(true));
    assert_eq!(r.delete("a"), Ok(false));
    assert_eq!(r.get("a").err(), Some(RosterError::NotFound));
}

#[test]
fn set_enabled_flips_only_the_flag() {
    let mut r: Roster<u32> = Roster::new(4);
    r.put(card("a", true, 7)).unwrap();
    assert_eq!(r.set_enabled("a", false), Ok(()));
    let c = r.get("a").unwrap();
    assert!(!c.enabled);
    assert_eq!(c.body, 7);
    assert_eq!(r.set_enabled("zz", true), Err(RosterError::NotFound));
}

#[test]
fn the_router_name_is_reserved_for_upstreams() {
    let mut r: Roster<u32> = Roster::new(4);
    assert_eq!(put_upstream(&mut r, card("task-router", true, 0)), Err(RosterError::Reserved));
    assert!(r.list().is_empty());
    assert_eq!(put_upstream(&mut r, card("gpu-1", true, 0)), Ok(()));
}

#[test]
fn checked_put_refuses_an_invalid_card_and_keeps_the_roster() {
    let mut r: Roster<u32> = Roster::new(4);
    r.put(card("a", true, 1)).unwrap();
    let got = r.put_checked(card("a", false, 9), Err("model is required".to_string()));
    assert!(matches!(got, Err(PutRefusal::Invalid(ref m)) if m == "model is required"));
    assert_eq!(r.get("a").unwrap().body, 1, "the stored card is untouched");
    assert_eq!(r.list().len(), 1);
}

#[test]
fn checked_put_of_a_valid_card_behaves_as_put() {
    let mut r: Roster<u32> = Roster::new(1);
    assert!(r.put_checked(card("a", true, 1), Ok(())).is_ok());
    assert_eq!(r.get("a").unwrap().body, 1);
    let full = r.put_checked(card("b", true, 2), Ok(()));
    assert!(matches!(full, Err(PutRefusal::Store(RosterError::Full))));
    let bad = r.put_checked(card("../x", true, 3), Ok(()));
    assert!(matches!(bad, Err(PutRefusal::Store(RosterError::InvalidId))));
    assert_eq!(r.list().len(), 1);
}
