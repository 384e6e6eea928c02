use teamwork::config::array_eq;
use teamwork::config::is_starred_task;
use teamwork::config::save_alias;
use teamwork::config::save_token_and_company;
use teamwork::config::star_task;
use teamwork::config::unstar_task;
use teamwork::config::NoConfigError;
use teamwork::config::ProjectAlias;
use teamwork::config::SerializableTeamWorkConfig;
use teamwork::config::TeamWorkConfig;
use teamwork::config::TimeOff;

fn sample_config() -> TeamWorkConfig {
    TeamWorkConfig {
        company_id: "test-company-id".to_string(),
        token: "test-token".to_string(),
        project_aliases: vec![ProjectAlias {
            project_id: "project-id-1".to_string(),
            alias: "project-alias-1".to_string(),
        }],
        times_off: vec![
            TimeOff { date: "2020-01-23".to_string(), hours: 8 },
            TimeOff { date: "2020-01-24".to_string(), hours: 4 },
        ],
        starred_tasks: vec![124343, 24543543],
    }
}

#[test]
fn fresh_config_holds_only_the_credentials() {
    let c = save_token_and_company(&"a-company".to_string(), &"a-token".to_string());
    assert_eq!(c.company_id, "a-company");
    assert_eq!(c.token, "a-token");
    assert!(c.project_aliases.is_empty());
    assert!(c.times_off.is_empty());
    assert!(c.starred_tasks.is_empty());
}

#[test]
fn finds_the_alias_of_a_project() {
    let c = sample_config();
    let found = c.get_alias(&"project-id-1".to_string()).expect("alias should be found");
    assert_eq!(found.alias, "project-alias-1");
    assert!(c.get_alias(&"other-project".to_string()).is_none());
}

#[test]
fn get_alias_returns_the_first_declaration() {
    let mut c = sample_config();
    c.project_aliases.push(ProjectAlias {
        project_id: "project-id-1".to_string(),
        alias: "a-later-alias".to_string(),
    });
    let found = c.get_alias(&"project-id-1".to_string()).expect("alias should be found");
    assert_eq!(found.alias, "project-alias-1");
}

#[test]
fn saving_an_alias_appends_it() {
    let c = sample_config();
    let c2 = save_alias(&c, &"project-id-2".to_string(), &"p2".to_string());
    assert_eq!(c2.project_aliases.len(), 2);
    assert_eq!(c2.project_aliases[1].project_id, "project-id-2");
    assert_eq!(c2.project_aliases[1].alias, "p2");
    assert_eq!(c2.company_id, c.company_id);
    assert_eq!(c2.times_off.len(), c.times_off.len());
}

#[test]
fn declaring_time_off_appends_a_new_date() {
    let c = sample_config();
    let c2 = c.with_time_off("2020-02-03".to_string(), 6);
    assert_eq!(c2.times_off.len(), 3);
    assert_eq!(c2.times_off[2].date, "2020-02-03");
    assert_eq!(c2.times_off[2].hours, 6);
}

#[test]
fn declaring_time_off_replaces_an_existing_date() {
    let c = sample_config();
    let c2 = c.with_time_off("2020-01-23".to_string(), 2);
    assert_eq!(c2.times_off.len(), 2);
    assert_eq!(c2.times_off[0].date, "2020-01-24");
    assert_eq!(c2.times_off[1].date, "2020-01-23");
    assert_eq!(c2.times_off[1].hours, 2);
}

#[test]
fn declaring_zero_hours_removes_the_date() {
    let c = sample_config();
    let c2 = c.with_time_off("2020-01-23".to_string(), 0);
    assert_eq!(c2.times_off.len(), 1);
    assert_eq!(c2.times_off[0].date, "2020-01-24");
    let c3 = c.with_time_off("2020-01-24".to_string(), -3);
    assert_eq!(c3.times_off.len(), 1);
    assert_eq!(c3.times_off[0].date, "2020-01-23");
}

#[test]
fn starring_appends_and_unstarring_removes() {
    let c = sample_config();
    assert!(is_starred_task(&c, 124343));
    assert!(!is_starred_task(&c, 1));
    let c2 = star_task(&c, 1);
    assert!(is_starred_task(&c2, 1));
    assert_eq!(c2.starred_tasks, vec![124343, 24543543, 1]);
    let c3 = unstar_task(&c2, 124343);
    assert_eq!(c3.starred_tasks, vec![24543543, 1]);
    let c4 = unstar_task(&c3, 99);
    assert_eq!(c4.starred_tasks, vec![24543543, 1]);
}

#[test]
fn array_eq_ignores_order() {
    assert!(array_eq(&vec![1usize, 2, 3], &vec![3usize, 1, 2]));
    assert!(!array_eq(&vec![1usize, 2], &vec![1usize, 2, 3]));
    assert!(!array_eq(&vec![1usize, 2], &vec![1usize, 3]));
}

#[test]
fn array_eq_compares_as_sets_of_equal_length() {
    assert!(array_eq(&vec![1usize, 1, 2], &vec![1usize, 2, 2]));
}

#[test]
fn configs_compare_order_insensitively() {
    let c = sample_config();
    let mut reordered = sample_config();
    reordered.times_off.reverse();
    reordered.starred_tasks.reverse();
    assert!(c == reordered);
    let other = star_task(&c, 7);
    assert!(c != other);
    let mut other_token = sample_config();
    other_token.token = "another-token".to_string();
    assert!(c != other_token);
}

#[test]
fn cloned_configs_are_equal() {
    let c = sample_config();
    let copy = c.clone();
    assert!(c == copy);
}

#[test]
fn stored_form_reads_back_with_absent_arrays_empty() {
    let stored = SerializableTeamWorkConfig {
        company_id: "test-company-id".to_string(),
        token: "test-token".to_string(),
        project_aliases: None,
        times_off: None,
        starred_tasks: None,
    };
    let c = TeamWorkConfig::from_serializable(stored);
    assert_eq!(c.company_id, "test-company-id");
    assert_eq!(c.token, "test-token");
    assert!(c.project_aliases.is_empty());
    assert!(c.times_off.is_empty());
    assert!(c.starred_tasks.is_empty());
}

#[test]
fn stored_form_keeps_every_array() {
    let c = sample_config();
    let stored = SerializableTeamWorkConfig::from_config(&c);
    assert_eq!(stored.company_id, "test-company-id");
    assert_eq!(stored.token, "test-token");
    assert_eq!(stored.project_aliases.as_ref().map(|v| v.len()), Some(1));
    assert_eq!(stored.times_off.as_ref().map(|v| v.len()), Some(2));
    assert_eq!(stored.starred_tasks, Some(vec![124343, 24543543]));
    let back = TeamWorkConfig::from_serializable(stored);
    assert!(back == c);
}

#[test]
fn times_off_listing_filters_by_prefix() {
    let mut c = sample_config();
    c.times_off.push(TimeOff { date: "2021-01-05".to_string(), hours: 8 });
    let of_2020 = c.times_off_starting_with(&"2020".to_string());
    assert_eq!(of_2020.len(), 2);
    assert_eq!(of_2020[0].date, "2020-01-23");
    assert_eq!(of_2020[1].date, "2020-01-24");
    let of_january_2021 = c.times_off_starting_with(&"2021-01".to_string());
    assert_eq!(of_january_2021.len(), 1);
    assert_eq!(of_january_2021[0].date, "2021-01-05");
    let of_nothing = c.times_off_starting_with(&"2019".to_string());
    assert!(of_nothing.is_empty());
}

#[test]
fn missing_config_has_a_message() {
    assert_eq!(NoConfigError.message(), "no config file ~/.teamwork");
}
