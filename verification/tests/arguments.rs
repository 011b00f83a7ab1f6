use true_cyber::args::{command_of, flag_value, link_request, positional_args, rpc_from_args, Command, DEFAULT_RPC};

fn v(xs: &[&str]) -> Vec<String> {
    xs.iter().map(|s| s.to_string()).collect()
}

#[test]
fn command_words() {
    assert_eq!(command_of(""), Command::Status);
    assert_eq!(command_of("status"), Command::Status);
    assert_eq!(command_of("sync"), Command::Sync);
    assert_eq!(command_of("link"), Command::Link);
    assert_eq!(command_of("net"), Command::Network);
    assert_eq!(command_of("?"), Command::Help);
    assert_eq!(command_of("-V"), Command::Version);
    assert_eq!(command_of("tendermint"), Command::Foreign);
    assert_eq!(command_of("frobnicate"), Command::Unknown);
}

#[test]
fn flag_value_takes_the_next_argument() {
    let a = v(&["x", "--amount", "5", "--amount", "6"]);
    assert_eq!(flag_value(&a, "--amount"), Some("5".to_string()));
    assert_eq!(flag_value(&a, "--valence"), None);
    assert_eq!(flag_value(&v(&["--amount"]), "--amount"), None);
}

#[test]
fn rpc_default_and_override() {
    assert_eq!(rpc_from_args(&v(&[])), Ok(DEFAULT_RPC.to_string()));
    assert_eq!(rpc_from_args(&v(&["--rpc", "http://a", "--rpc", "http://b"])), Ok("http://b".to_string()));
    assert_eq!(rpc_from_args(&v(&["--rpc"])), Ok(DEFAULT_RPC.to_string()));
    assert_eq!(rpc_from_args(&v(&["--rpc", "--rpc", "x"])), Ok("--rpc".to_string()));
}

#[test]
fn rpc_refuses_bootloader_networks() {
    assert_eq!(rpc_from_args(&v(&["-n", "bostrom"])), Err("bostrom".to_string()));
    assert_eq!(rpc_from_args(&v(&["--network", "space-pussy", "--rpc", "x"])), Err("space-pussy".to_string()));
    assert_eq!(rpc_from_args(&v(&["--network", "spacepussy-test", "--rpc", "x"])), Ok("x".to_string()));
    assert_eq!(rpc_from_args(&v(&["--network"])), Ok(DEFAULT_RPC.to_string()));
}

#[test]
fn positional_skips_dash_arguments() {
    assert_eq!(positional_args(&v(&["a", "--x", "b", "-", "c"])), v(&["a", "b", "c"]));
}

#[test]
fn link_request_defaults() {
    let q = link_request(&v(&["from", "to"])).expect("request");
    assert_eq!(q.from, "from");
    assert_eq!(q.to, "to");
    assert_eq!(q.neuron, "01");
    assert_eq!(q.amount, 1);
    assert_eq!(q.valence, 0);
}

#[test]
fn link_request_flags() {
    let q = link_request(&v(&["--neuron", "n", "--amount", "9", "--valence", "-1", "a", "b"])).expect("request");
    assert_eq!(q.neuron, "n");
    assert_eq!(q.amount, 9);
    assert_eq!(q.valence, -1);
    // the flag values that do not start with '-' are positional too
    assert_eq!(q.from, "n");
    assert_eq!(q.to, "9");
}

#[test]
fn link_request_bad_numbers_default() {
    let q = link_request(&v(&["a", "b", "--amount", "-3", "--valence", "200"])).expect("request");
    assert_eq!(q.amount, 1);
    assert_eq!(q.valence, 0);
    let r = link_request(&v(&["a", "b", "--valence", "-128"])).expect("request");
    assert_eq!(r.valence, -128);
}

#[test]
fn link_request_needs_two_positionals() {
    assert!(link_request(&v(&["a", "--x"])).is_none());
}
