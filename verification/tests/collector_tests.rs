use panty::collector::{clean, RenewOptions, RenewPlan, RoleProbe, Stock, Stocks};
use panty::gvim::{Instance, SpawnOptions};

fn stock(window: u64, name: &str) -> Stock<u32> {
    Stock { window, servername: name.to_string(), stdout_reader: window as u32 }
}

fn spawn_options() -> SpawnOptions {
    SpawnOptions { current_directory: None, command: "gvim".to_string(), unmap: true, desktop: None }
}

#[test]
fn stocks_are_handed_out_first_in_first_out() {
    let mut stocks: Stocks<u32> = Stocks::new();
    assert!(stocks.pop_front().is_none());
    stocks.push_back(stock(1, "A"));
    stocks.push_back(stock(2, "B"));
    assert_eq!(stocks.len(), 2);
    let first = stocks.pop_front().unwrap();
    assert_eq!((first.window, first.servername.as_str(), first.stdout_reader), (1, "A", 1));
    stocks.push_back(stock(3, "C"));
    assert_eq!(stocks.pop_front().unwrap().servername, "B");
    assert_eq!(stocks.pop_front().unwrap().servername, "C");
    assert!(stocks.pop_front().is_none());
}

#[test]
fn stocks_list_windows_and_names() {
    let mut stocks: Stocks<u32> = Stocks::new();
    stocks.push_back(stock(10, "A"));
    stocks.push_back(stock(20, "B"));
    assert_eq!(stocks.windows(), vec![10, 20]);
    assert_eq!(stocks.servernames(), vec!["A".to_string(), "B".to_string()]);
}

#[test]
fn restart_empties_the_stock() {
    let mut stocks: Stocks<u32> = Stocks::new();
    stocks.push_back(stock(10, "A"));
    stocks.push_back(stock(20, "B"));
    match stocks.renew(RenewOptions::Restart { max_stocks: 3, spawn_options: spawn_options() }) {
        RenewPlan::Restart { killees, count, spawn_options } => {
            assert_eq!(killees, vec![10, 20]);
            assert_eq!(count, 3);
            assert_eq!(spawn_options.command, "gvim");
        }
        _ => panic!("expected a restart"),
    }
    assert_eq!(stocks.len(), 0);
}

#[test]
fn reload_keeps_the_stock() {
    let mut stocks: Stocks<u32> = Stocks::new();
    stocks.push_back(stock(10, "A"));
    match stocks.renew(RenewOptions::Reload { keys: vec![":so %<CR>".to_string()] }) {
        RenewPlan::Reload { servernames, keys } => {
            assert_eq!(servernames, vec!["A".to_string()]);
            assert_eq!(keys, vec![":so %<CR>".to_string()]);
        }
        _ => panic!("expected a reload"),
    }
    assert_eq!(stocks.len(), 1);
}

fn probe(window: u64, name: &str, role: Option<&str>) -> RoleProbe {
    RoleProbe {
        instance: Instance { window, servername: name.to_string(), title: "t".to_string() },
        role: role.map(|r| r.to_string()),
    }
}

#[test]
fn clean_kills_stray_stocked_instances_only() {
    let probes = vec![
        probe(1, "A", Some("STOCKING")),
        probe(2, "B", Some("STOCKING")),
        probe(3, "C", Some("PANTY")),
        probe(4, "D", None),
    ];
    let killed = clean(&[2], &probes);
    assert_eq!(killed.len(), 1);
    assert_eq!(killed[0].window, 1);
    assert_eq!(killed[0].servername, "A");
    let all = clean(&[], &probes);
    let windows: Vec<u64> = all.iter().map(|i| i.window).collect();
    assert_eq!(windows, vec![1, 2]);
}
