use hypr_some_events::config::{Config, Event};

fn build(args: &[&str]) -> Config {
    let v: Vec<String> = args.iter().map(|s| String::from(*s)).collect();
    Config::build(&v).unwrap()
}

#[test]
fn default_mode_is_workspace() {
    let c = build(&["prog"]);
    assert_eq!(c.event, Event::Workspace);
    assert_eq!(c.ewwvar, "");
    assert_eq!(build(&[]).event, Event::Workspace);
}

#[test]
fn mode_names() {
    assert_eq!(build(&["prog", "workspace"]).event, Event::Workspace);
    assert_eq!(build(&["prog", "workspaces"]).event, Event::Workspace);
    assert_eq!(build(&["prog", "active-workspace"]).event, Event::ActiveWorkspace);
    assert_eq!(build(&["prog", "submap"]).event, Event::Submap);
    assert_eq!(build(&["prog", "monitors"]).event, Event::Invalid);
    assert_eq!(build(&["submap"]).event, Event::Workspace);
}

#[test]
fn first_plain_argument_decides() {
    assert_eq!(build(&["prog", "--eww=ws", "submap", "workspace"]).event, Event::Submap);
}

#[test]
fn eww_option_value() {
    let c = build(&["prog", "workspaces", "--eww=persistent"]);
    assert_eq!(c.event, Event::Workspace);
    assert_eq!(c.ewwvar, "persistent");
    assert_eq!(build(&["prog", "--eww=a", "--other", "--eww=b"]).ewwvar, "b");
    assert_eq!(build(&["prog", "--eww="]).ewwvar, "");
    assert_eq!(build(&["prog", "--eww"]).ewwvar, "");
}
