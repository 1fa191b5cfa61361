use sylphie::disambiguate::{CanDisambiguate, Disambiguated, DisambiguatedSet, Named, ResolveError};

#[derive(Debug, PartialEq)]
struct Command {
    name: &'static str,
    full_name: &'static str,
    module_name: &'static str,
}

impl CanDisambiguate for Command {
    const CLASS_NAME: &'static str = "command";

    fn name(&self) -> &str {
        self.name
    }

    fn full_name(&self) -> &str {
        self.full_name
    }

    fn module_name(&self) -> &str {
        self.module_name
    }
}

fn command(name: &'static str, module_name: &'static str, full_name: &'static str) -> Command {
    Command { name, full_name, module_name }
}

fn example() -> DisambiguatedSet<Command> {
    DisambiguatedSet::new(vec![
        command("help", "bot.core.base", "bot.core.base.help"),
        command("quit", "bot.core", "bot.core.quit"),
        command("Help", "bot.Extras.base", "bot.extras.base.HELP"),
        command("help", "elsewhere", "BOT.CORE.BASE.HELP"),
    ])
}

fn full_names(found: &Vec<&Disambiguated<Command>>) -> Vec<&'static str> {
    found.iter().map(|d| d.value.full_name).collect()
}

#[test]
fn of_two_items_with_one_full_name_the_first_is_kept() {
    let set = example();
    assert_eq!(set.len(), 3);
    let all = set.all_commands();
    assert!(all.iter().all(|d| d.value.module_name != "elsewhere"));
}

#[test]
fn items_are_listed_grouped_by_name() {
    let set = example();
    let all = set.all_commands();
    assert_eq!(full_names(&all), vec!["bot.core.base.help", "bot.extras.base.HELP", "bot.core.quit"]);
}

#[test]
fn prefixes_run_from_the_full_name_to_the_empty_prefix() {
    let set = example();
    let all = set.all_commands();
    assert_eq!(all[0].allowed_prefixes, vec!["bot.core.base.help", "core.base", "base", ""]);
    assert_eq!(all[1].allowed_prefixes, vec!["bot.extras.base.help", "extras.base", "base", ""]);
    assert_eq!(all[2].allowed_prefixes, vec!["bot.core.quit", "core", ""]);
}

#[test]
fn the_shortest_prefix_that_tells_apart_is_chosen() {
    let set = example();
    let all = set.all_commands();
    assert_eq!(all[0].disambiguated_prefix, "core.base");
    assert_eq!(all[1].disambiguated_prefix, "extras.base");
    assert_eq!(all[2].disambiguated_prefix, "");
}

#[test]
fn without_a_unique_prefix_the_full_name_is_chosen() {
    let set = DisambiguatedSet::new(vec![
        command("x", "z", "p.q"),
        command("x", "m.p.q", "other"),
    ]);
    let all = set.all_commands();
    assert_eq!(all[0].allowed_prefixes, vec!["p.q", ""]);
    assert_eq!(all[0].disambiguated_prefix, "p.q");
    assert_eq!(all[1].allowed_prefixes, vec!["other", "p.q", "q", ""]);
    assert_eq!(all[1].disambiguated_prefix, "q");
}

#[test]
fn a_prefix_that_an_item_has_twice_does_not_tell_it_apart() {
    let set = DisambiguatedSet::new(vec![command("x", "m.x", "x")]);
    let all = set.all_commands();
    assert_eq!(all[0].allowed_prefixes, vec!["x", "x", ""]);
    assert_eq!(all[0].disambiguated_prefix, "");
    let set = DisambiguatedSet::new(vec![command("x", "", "")]);
    let all = set.all_commands();
    assert_eq!(all[0].allowed_prefixes, vec!["", ""]);
    assert_eq!(all[0].disambiguated_prefix, "");
}

#[test]
fn resolves_by_name_and_prefix() {
    let set = example();
    assert_eq!(
        full_names(&set.resolve("help").ok().unwrap()),
        vec!["bot.core.base.help", "bot.extras.base.HELP"]
    );
    assert_eq!(
        full_names(&set.resolve("BASE:Help").ok().unwrap()),
        vec!["bot.core.base.help", "bot.extras.base.HELP"]
    );
    assert_eq!(full_names(&set.resolve("core.base:help").ok().unwrap()), vec!["bot.core.base.help"]);
    assert_eq!(full_names(&set.resolve("extras.base:HELP").ok().unwrap()), vec!["bot.extras.base.HELP"]);
    assert_eq!(
        full_names(&set.resolve("bot.core.base.help:help").ok().unwrap()),
        vec!["bot.core.base.help"]
    );
    assert_eq!(full_names(&set.resolve(":quit").ok().unwrap()), vec!["bot.core.quit"]);
    assert_eq!(full_names(&set.resolve("core:quit").ok().unwrap()), vec!["bot.core.quit"]);
    assert!(set.resolve("core:help").ok().unwrap().is_empty());
    assert!(set.resolve("nothing").ok().unwrap().is_empty());
    assert!(set.resolve("").ok().unwrap().is_empty());
}

#[test]
fn an_item_is_found_once_for_each_time_it_has_the_prefix() {
    let set = DisambiguatedSet::new(vec![command("x", "m.x", "x")]);
    assert_eq!(set.resolve("x:x").ok().unwrap().len(), 2);
    assert_eq!(set.resolve("x").ok().unwrap().len(), 1);
}

#[test]
fn more_than_one_colon_is_refused() {
    let set = example();
    assert_eq!(set.resolve("a:b:c").err(), Some(ResolveError::TooManyColons));
    assert_eq!(set.resolve("::").err(), Some(ResolveError::TooManyColons));
    assert_eq!(
        ResolveError::TooManyColons.message(Command::CLASS_NAME),
        "No more than one `:` can appear in a command name."
    );
}

#[test]
fn a_set_of_values_with_given_names() {
    let set = DisambiguatedSet::from_named(vec![
        Named {
            value: command("ignored", "ignored", "ignored"),
            name: "Ping".to_string(),
            full_name: "Net.Ping".to_string(),
            module_name: "Net.Tools".to_string(),
        },
    ]);
    let found = set.resolve("tools:ping").ok().unwrap();
    assert_eq!(found.len(), 1);
    assert_eq!(found[0].allowed_prefixes, vec!["net.ping", "tools", ""]);
    assert_eq!(found[0].value.name, "ignored");
}

#[test]
fn an_empty_set() {
    let set: DisambiguatedSet<Command> = DisambiguatedSet::new(vec![]);
    assert_eq!(set.len(), 0);
    assert!(set.all_commands().is_empty());
    assert!(set.resolve("help").ok().unwrap().is_empty());
}
