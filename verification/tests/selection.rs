use sshmenu::command::ProcessReport;
use sshmenu::menu::{build_menu, host_hint_of, host_label_of, latency_note_of, Choice};
use sshmenu::parser::parse_ssh_config;
use sshmenu::probe::{probe_latency, ProbeStrategy};
use sshmenu::selector::{Event, Phase, Selector};

const THREE: &str = "Host beta\n  User bee\nHost alpha\n  Hostname 10.0.0.1\nHost gamma\n";

fn selector(text: &str) -> Selector {
    Selector::new(parse_ssh_config(text))
}

fn latencies(s: &Selector) -> Vec<Option<u128>> {
    let r = s.registry();
    (0..r.len()).map(|i| r.at(i).latency).collect()
}

#[test]
fn menu_begins_with_refresh_item() {
    let items = build_menu(&parse_ssh_config(THREE));
    assert_eq!(items.len(), 4);
    assert_eq!(items[0].choice, Choice::Refresh);
    assert_eq!(items[0].label, "📡 Get latencies");
    assert_eq!(items[0].hint, "");
}

#[test]
fn menu_lists_hosts_in_alias_order() {
    let items = build_menu(&parse_ssh_config(THREE));
    assert_eq!(items[1].choice, Choice::Host(0));
    assert_eq!(items[1].label, "(0) alpha - ");
    assert_eq!(items[1].hint, "");
    assert_eq!(items[2].choice, Choice::Host(1));
    assert_eq!(items[2].label, "(1) beta - ");
    assert_eq!(items[2].hint, "User: bee");
    assert_eq!(items[3].choice, Choice::Host(2));
    assert_eq!(items[3].label, "(2) gamma - ");
    assert_eq!(items[3].hint, "");
}

#[test]
fn menu_of_empty_registry_has_only_refresh() {
    let items = build_menu(&parse_ssh_config(""));
    assert_eq!(items.len(), 1);
    assert_eq!(items[0].choice, Choice::Refresh);
}

#[test]
fn menu_shows_latency_where_measured() {
    let mut registry = parse_ssh_config(THREE);
    registry.set_latency(1, Some(42));
    registry.set_latency(2, Some(0));
    let items = build_menu(&registry);
    assert_eq!(items[1].label, "(0) alpha - ");
    assert_eq!(items[2].label, "(1) beta - 42 ms");
    assert_eq!(items[3].label, "(2) gamma - 0 ms");
}

#[test]
fn menu_numbers_go_past_nine() {
    let mut text = String::new();
    for i in 0..12 {
        text.push_str(&format!("Host h{:02}\n", i));
    }
    let items = build_menu(&parse_ssh_config(&text));
    assert_eq!(items[10].label, "(9) h09 - ");
    assert_eq!(items[11].label, "(10) h10 - ");
    assert_eq!(items[12].label, "(11) h11 - ");
}

#[test]
fn label_parts_are_written() {
    let registry = parse_ssh_config("Host a\n  User u\n");
    let a = registry.at(0);
    assert_eq!(host_label_of(7, a), "(7) a - ");
    assert_eq!(host_hint_of(a), "User: u");
    assert_eq!(latency_note_of(Some(1500)), "1500 ms");
    assert_eq!(latency_note_of(None), "");
}

#[test]
fn set_latency_replaces_and_clears() {
    let mut registry = parse_ssh_config(THREE);
    registry.set_latency(0, Some(5));
    assert_eq!(registry.get("alpha").unwrap().latency, Some(5));
    registry.set_latency(0, Some(9));
    assert_eq!(registry.get("alpha").unwrap().latency, Some(9));
    registry.set_latency(0, None);
    assert_eq!(registry.get("alpha").unwrap().latency, None);
    assert_eq!(registry.get("alpha").unwrap().hostname, "10.0.0.1");
    assert_eq!(registry.get("beta").unwrap().latency, None);
    assert_eq!(registry.len(), 3);
}

#[test]
fn empty_registry_never_shows_the_menu() {
    let mut s = selector("");
    assert_eq!(s.phase(), Phase::NoHosts);
    assert!(s.selected().is_none());
    assert!(s.probe_target().is_none());
    s.advance(Event::Picked(Choice::Refresh));
    assert_eq!(s.phase(), Phase::NoHosts);
    s.advance(Event::Picked(Choice::Host(0)));
    assert_eq!(s.phase(), Phase::NoHosts);
    s.advance(Event::Aborted);
    assert_eq!(s.phase(), Phase::NoHosts);
}

#[test]
fn loop_begins_at_the_menu() {
    let s = selector(THREE);
    assert_eq!(s.phase(), Phase::Displaying);
    assert_eq!(s.menu().len(), 4);
    assert!(s.selected().is_none());
}

#[test]
fn picking_a_host_ends_the_loop_with_it() {
    let mut s = selector(THREE);
    s.advance(Event::Picked(Choice::Host(1)));
    assert_eq!(s.phase(), Phase::Selected(1));
    assert_eq!(s.selected().unwrap().alias, "beta");
    s.advance(Event::Picked(Choice::Host(0)));
    s.advance(Event::Aborted);
    s.advance(Event::Probed(Some(1)));
    assert_eq!(s.phase(), Phase::Selected(1));
    assert_eq!(s.into_registry().len(), 3);
}

#[test]
fn picking_each_host_selects_that_host() {
    for (i, alias) in ["alpha", "beta", "gamma"].iter().enumerate() {
        let mut s = selector(THREE);
        s.advance(Event::Picked(Choice::Host(i)));
        assert_eq!(s.phase(), Phase::Selected(i));
        assert_eq!(s.selected().unwrap().alias, *alias);
    }
}

#[test]
fn aborting_ends_the_loop_without_a_host() {
    let mut s = selector(THREE);
    s.advance(Event::Aborted);
    assert_eq!(s.phase(), Phase::Cancelled);
    assert!(s.selected().is_none());
    s.advance(Event::Picked(Choice::Host(0)));
    assert_eq!(s.phase(), Phase::Cancelled);
}

#[test]
fn choice_off_the_menu_is_no_selection() {
    let mut s = selector(THREE);
    s.advance(Event::Picked(Choice::Host(3)));
    assert_eq!(s.phase(), Phase::Cancelled);
    assert!(s.selected().is_none());
}

#[test]
fn refresh_probes_every_host_and_returns_to_the_menu() {
    let mut s = selector(THREE);
    s.advance(Event::Picked(Choice::Refresh));
    assert_eq!(s.phase(), Phase::Probing(0));
    assert_eq!(s.probe_target().unwrap().alias, "alpha");
    s.advance(Event::Probed(Some(11)));
    assert_eq!(s.phase(), Phase::Probing(1));
    assert_eq!(s.probe_target().unwrap().alias, "beta");
    s.advance(Event::Probed(None));
    assert_eq!(s.phase(), Phase::Probing(2));
    assert_eq!(s.probe_target().unwrap().alias, "gamma");
    s.advance(Event::Probed(Some(33)));
    assert_eq!(s.phase(), Phase::Displaying);
    assert!(s.probe_target().is_none());
    assert_eq!(latencies(&s), [Some(11), None, Some(33)]);
    let items = s.menu();
    assert_eq!(items[1].label, "(0) alpha - 11 ms");
    assert_eq!(items[2].label, "(1) beta - ");
    assert_eq!(items[3].label, "(2) gamma - 33 ms");
}

#[test]
fn refresh_never_ends_the_loop() {
    let mut s = selector(THREE);
    for round in 0..4u128 {
        s.advance(Event::Picked(Choice::Refresh));
        while let Phase::Probing(i) = s.phase() {
            s.advance(Event::Probed(Some(round * 10 + i as u128)));
        }
        assert_eq!(s.phase(), Phase::Displaying);
    }
    assert_eq!(latencies(&s), [Some(30), Some(31), Some(32)]);
    s.advance(Event::Picked(Choice::Host(2)));
    assert_eq!(s.phase(), Phase::Selected(2));
    assert_eq!(s.selected().unwrap().latency, Some(32));
}

#[test]
fn other_events_are_ignored_during_a_round() {
    let mut s = selector(THREE);
    s.advance(Event::Picked(Choice::Refresh));
    s.advance(Event::Aborted);
    assert_eq!(s.phase(), Phase::Probing(0));
    s.advance(Event::Picked(Choice::Host(1)));
    assert_eq!(s.phase(), Phase::Probing(0));
    s.advance(Event::Picked(Choice::Refresh));
    assert_eq!(s.phase(), Phase::Probing(0));
    assert_eq!(latencies(&s), [None, None, None]);
}

#[test]
fn probe_outcome_at_the_menu_is_ignored() {
    let mut s = selector(THREE);
    s.advance(Event::Probed(Some(5)));
    assert_eq!(s.phase(), Phase::Displaying);
    assert_eq!(latencies(&s), [None, None, None]);
}

#[test]
fn failed_probe_clears_an_earlier_measurement() {
    let mut s = selector("Host only\n");
    s.advance(Event::Picked(Choice::Refresh));
    s.advance(Event::Probed(Some(20)));
    assert_eq!(latencies(&s), [Some(20)]);
    s.advance(Event::Picked(Choice::Refresh));
    s.advance(Event::Probed(None));
    assert_eq!(latencies(&s), [None]);
    s.advance(Event::Picked(Choice::Refresh));
    s.advance(Event::Probed(Some(7)));
    assert_eq!(latencies(&s), [Some(7)]);
    assert_eq!(s.phase(), Phase::Displaying);
}

#[test]
fn probes_that_always_fail_measure_no_host() {
    for strategy in [ProbeStrategy::Handshake, ProbeStrategy::Ping] {
        let mut s = selector(THREE);
        s.advance(Event::Picked(Choice::Refresh));
        let mut probes = 0;
        while let Phase::Probing(_) = s.phase() {
            let failed = ProcessReport {
                started: true,
                success: false,
                elapsed_ms: 3000,
                output: Some("time=1.0 ms".to_string()),
            };
            s.advance(Event::Probed(probe_latency(strategy, &failed)));
            probes += 1;
        }
        assert_eq!(probes, 3);
        assert_eq!(s.phase(), Phase::Displaying);
        assert_eq!(latencies(&s), [None, None, None]);
    }
}
