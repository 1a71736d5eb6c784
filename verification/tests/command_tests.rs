use fvm::alias::Alias;
use fvm::commands::{
    alias_subcommand, command_kind, no_arguments, list_request, names_containing, one_argument, plan_add_alias,
    plan_download, plan_remove, plan_remove_alias, plan_select, similar_aliases, similar_names,
    AddAliasPlan, AliasSubcommand, ArgCount, CommandKind, DownloadPlan, ListRequest, RemoveAliasPlan,
    RemovePlan, SelectPlan,
};
use fvm::releases::{deserialize_time, Channel, Release};

fn v(xs: &[&str]) -> Vec<String> {
    xs.iter().map(|x| x.to_string()).collect()
}

fn al(d: &str, n: &str) -> Alias {
    Alias::new(d.to_string(), n.to_string())
}

fn release(version: &str, channel: Channel) -> Release {
    Release {
        hash: String::new(),
        channel,
        version: version.to_string(),
        release_date: deserialize_time("2021-04-02T18:21:00Z").ok().unwrap(),
        archive: String::new(),
        sha256: String::new(),
    }
}

#[test]
fn command_words() {
    assert_eq!(command_kind("list"), CommandKind::List);
    assert_eq!(command_kind("download"), CommandKind::Download);
    assert_eq!(command_kind("alias"), CommandKind::Alias);
    assert_eq!(command_kind("select"), CommandKind::Select);
    assert_eq!(command_kind("remove"), CommandKind::Remove);
    assert_eq!(command_kind("show"), CommandKind::Show);
    assert_eq!(command_kind("doctor"), CommandKind::Doctor);
    assert_eq!(command_kind("lists"), CommandKind::Unknown);
    assert_eq!(command_kind(""), CommandKind::Unknown);
}

#[test]
fn one_argument_counts() {
    assert_eq!(one_argument(&v(&[])), ArgCount::Missing);
    assert_eq!(one_argument(&v(&["a"])), ArgCount::One);
    assert_eq!(one_argument(&v(&["a", "b"])), ArgCount::TooMany);
}

#[test]
fn list_requests() {
    assert_eq!(list_request(&v(&[])), ListRequest::MissingChannel);
    assert_eq!(list_request(&v(&["stable", "dev"])), ListRequest::TooManyArguments);
    assert_eq!(list_request(&v(&["stable"])), ListRequest::Channel(Channel::Stable));
    assert_eq!(list_request(&v(&["dev"])), ListRequest::Channel(Channel::Dev));
    assert_eq!(list_request(&v(&["beta"])), ListRequest::Channel(Channel::Beta));
    assert_eq!(list_request(&v(&["master"])), ListRequest::Unrecognized);
}

#[test]
fn download_one_match() {
    let rs = vec![release("2.0.4", Channel::Stable), release("2.2.0", Channel::Beta)];
    assert!(matches!(plan_download(&rs, "2.0.4-stable"), DownloadPlan::Download(0)));
    assert!(matches!(plan_download(&rs, "beta"), DownloadPlan::Download(1)));
}

#[test]
fn download_several_or_no_matches() {
    let rs = vec![release("2.0.4", Channel::Stable), release("2.0.5", Channel::Stable)];
    match plan_download(&rs, "2.0") {
        DownloadPlan::Choose(m) => assert_eq!(m, vec![0, 1]),
        other => panic!("unexpected {:?}", other),
    }
    match plan_download(&rs, "3.0") {
        DownloadPlan::Choose(m) => assert!(m.is_empty()),
        other => panic!("unexpected {:?}", other),
    }
}

#[test]
fn alias_subcommands() {
    assert_eq!(alias_subcommand(&v(&[])), (AliasSubcommand::Missing, v(&[])));
    assert_eq!(alias_subcommand(&v(&["add", "x"])), (AliasSubcommand::Add, v(&["x"])));
    assert_eq!(alias_subcommand(&v(&["remove"])), (AliasSubcommand::Remove, v(&[])));
    assert_eq!(alias_subcommand(&v(&["show", "extra"])), (AliasSubcommand::Show, v(&["extra"])));
    assert_eq!(alias_subcommand(&v(&["list"])), (AliasSubcommand::Unknown, v(&["list"])));
    assert_eq!(
        alias_subcommand(&v(&["a", "b", "c"])),
        (AliasSubcommand::Unknown, v(&["a", "b", "c"]))
    );
}

#[test]
fn alias_version_name_form_adds() {
    let (sub, rest) = alias_subcommand(&v(&["2.0.4-stable", "latest"]));
    assert_eq!(sub, AliasSubcommand::Add);
    assert_eq!(rest, v(&["2.0.4-stable", "latest"]));
    let installed = v(&["2.0.4-stable"]);
    match plan_add_alias(&rest, &installed, &vec![]) {
        AddAliasPlan::Add(a) => {
            assert_eq!(a.dir_name, "2.0.4-stable");
            assert_eq!(a.name, "latest");
        }
        other => panic!("unexpected {:?}", other),
    }
}

#[test]
fn no_arguments_check() {
    assert!(no_arguments(&v(&[])));
    assert!(!no_arguments(&v(&["x"])));
}

#[test]
fn add_alias_argument_counts() {
    let installed = v(&["2.0.4-stable"]);
    assert!(matches!(plan_add_alias(&v(&[]), &installed, &vec![]), AddAliasPlan::MissingArguments));
    assert!(matches!(
        plan_add_alias(&v(&["2.0.4-stable"]), &installed, &vec![]),
        AddAliasPlan::MissingArguments
    ));
    assert!(matches!(
        plan_add_alias(&v(&["a", "b", "c"]), &installed, &vec![]),
        AddAliasPlan::TooManyArguments
    ));
}

#[test]
fn add_alias_not_installed_suggests() {
    let installed = v(&["2.0.4-stable", "2.0.5-stable", "1.22.6-stable"]);
    match plan_add_alias(&v(&["2.0", "x"]), &installed, &vec![]) {
        AddAliasPlan::NotInstalled(s) => assert_eq!(s, v(&["2.0.4-stable", "2.0.5-stable"])),
        other => panic!("unexpected {:?}", other),
    }
}

#[test]
fn add_alias_already_aliased() {
    let installed = v(&["2.0.4-stable"]);
    let aliases = vec![al("2.0.4-stable", "latest")];
    assert!(matches!(
        plan_add_alias(&v(&["2.0.4-stable", "other"]), &installed, &aliases),
        AddAliasPlan::AlreadyAliased
    ));
}

#[test]
fn add_alias_adds() {
    let installed = v(&["2.0.4-stable"]);
    match plan_add_alias(&v(&["2.0.4-stable", "latest"]), &installed, &vec![]) {
        AddAliasPlan::Add(a) => {
            assert_eq!(a.dir_name, "2.0.4-stable");
            assert_eq!(a.name, "latest");
        }
        other => panic!("unexpected {:?}", other),
    }
}

#[test]
fn remove_alias_plans() {
    let aliases = vec![al("2.0.4-stable", "latest"), al("2.2.0-beta", "late")];
    assert!(matches!(plan_remove_alias(&v(&[]), &aliases), RemoveAliasPlan::MissingName));
    assert!(matches!(plan_remove_alias(&v(&["a", "b"]), &aliases), RemoveAliasPlan::TooManyArguments));
    match plan_remove_alias(&v(&["latest"]), &aliases) {
        RemoveAliasPlan::Remove(n) => assert_eq!(n, "latest"),
        other => panic!("unexpected {:?}", other),
    }
    match plan_remove_alias(&v(&["lat"]), &aliases) {
        RemoveAliasPlan::NotFound(s) => {
            assert_eq!(s.len(), 2);
            assert_eq!(s[0].name, "latest");
            assert_eq!(s[1].name, "late");
        }
        other => panic!("unexpected {:?}", other),
    }
    match plan_remove_alias(&v(&["latest-and-greatest"]), &aliases) {
        RemoveAliasPlan::NotFound(s) => {
            assert_eq!(s.len(), 2);
        }
        other => panic!("unexpected {:?}", other),
    }
}

#[test]
fn select_plans() {
    let installed = v(&["2.0.4-stable", "2.2.0-beta"]);
    let aliases = vec![al("2.2.0-beta", "b"), al("2.0.4-stable", "b")];
    assert!(matches!(plan_select(&v(&[]), &installed, &aliases), SelectPlan::MissingTarget));
    assert!(matches!(plan_select(&v(&["a", "b"]), &installed, &aliases), SelectPlan::TooManyArguments));
    match plan_select(&v(&["2.0.4-stable"]), &installed, &aliases) {
        SelectPlan::Version(x) => assert_eq!(x, "2.0.4-stable"),
        other => panic!("unexpected {:?}", other),
    }
    match plan_select(&v(&["b"]), &installed, &aliases) {
        SelectPlan::Aliased(d) => assert_eq!(d, "2.2.0-beta"),
        other => panic!("unexpected {:?}", other),
    }
    match plan_select(&v(&["2.0.4"]), &installed, &aliases) {
        SelectPlan::NotFound(s) => assert_eq!(s, v(&["2.0.4-stable"])),
        other => panic!("unexpected {:?}", other),
    }
    match plan_select(&v(&["beta"]), &installed, &aliases) {
        SelectPlan::NotFound(s) => assert_eq!(s, v(&["2.2.0-beta", "b", "b"])),
        other => panic!("unexpected {:?}", other),
    }
}

#[test]
fn select_after_adding_alias() {
    let installed = v(&["2.0.4-stable"]);
    let mut aliases = vec![];
    if let AddAliasPlan::Add(a) = plan_add_alias(&v(&["2.0.4-stable", "latest"]), &installed, &aliases) {
        aliases.push(a);
    }
    match plan_select(&v(&["latest"]), &installed, &aliases) {
        SelectPlan::Aliased(d) => assert_eq!(d, "2.0.4-stable"),
        other => panic!("unexpected {:?}", other),
    }
}

#[test]
fn remove_plans() {
    let installed = v(&["2.0.4-stable", "2.2.0-beta"]);
    let aliases = vec![al("2.2.0-beta", "b")];
    assert!(matches!(plan_remove(&v(&[]), &installed, &aliases), RemovePlan::MissingTarget));
    assert!(matches!(plan_remove(&v(&["a", "b"]), &installed, &aliases), RemovePlan::TooManyArguments));
    match plan_remove(&v(&["2.0.4-stable"]), &installed, &aliases) {
        RemovePlan::Delete(d) => assert_eq!(d, "2.0.4-stable"),
        other => panic!("unexpected {:?}", other),
    }
    match plan_remove(&v(&["b"]), &installed, &aliases) {
        RemovePlan::Delete(d) => assert_eq!(d, "2.2.0-beta"),
        other => panic!("unexpected {:?}", other),
    }
    assert!(matches!(plan_remove(&v(&["2.0"]), &installed, &vec![]), RemovePlan::Unresolved));
    match plan_remove(&v(&["x2.0.4-stable"]), &installed, &aliases) {
        RemovePlan::NotFound(s) => assert_eq!(s, v(&["2.0.4-stable", "b"])),
        other => panic!("unexpected {:?}", other),
    }
}

#[test]
fn name_filters() {
    let names = v(&["2.0.4-stable", "2.2.0-beta", "1.22.6-stable"]);
    assert_eq!(names_containing(&names, "stable"), v(&["2.0.4-stable", "1.22.6-stable"]));
    assert_eq!(names_containing(&names, ""), names);
    assert_eq!(similar_names(&names, "2.2.0-beta-extra"), v(&["2.2.0-beta"]));
    assert_eq!(similar_names(&names, "zzz"), Vec::<String>::new());
    let aliases = vec![al("a", "old"), al("b", "new")];
    let found = similar_aliases(&aliases, "ne");
    assert_eq!(found.len(), 1);
    assert_eq!(found[0].dir_name, "b");
}
