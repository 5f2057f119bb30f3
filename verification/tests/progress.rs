use pumpkin_advancements::advancement_command::{
    decimal_string, parse_command, AdvancementAction, AdvancementCommandExecutor, CommandArgument,
    CommandError, DESCRIPTION, PERMISSION,
};
use pumpkin_advancements::advancement_data::{
    make_criterion_key, make_key_prefix, AdvancementManager, CompletedAdvancement, CriterionProgress,
    PlayerAdvancementState, VanillaAdvancements,
};
use pumpkin_advancements::string_map::StringMap;
use pumpkin_advancements::text::{join, str_eq, str_starts_with};
use pumpkin_advancements::update_advancements::Advancement;

fn definition(id: &str, criteria: &[&str], requirements: &[&[&str]]) -> Advancement {
    Advancement {
        id: id.to_string(),
        parent_id: None,
        display_data: None,
        criteria: criteria.iter().map(|c| c.to_string()).collect(),
        requirements: requirements
            .iter()
            .map(|g| g.iter().map(|c| c.to_string()).collect())
            .collect(),
    }
}

fn vanilla() -> VanillaAdvancements {
    VanillaAdvancements {
        advancements: vec![
            definition("story/mine", &["stone", "iron"], &[&["stone", "iron"]]),
            definition("story/smelt", &["a", "b", "c"], &[&["a", "b"], &["c"]]),
            definition("story/free", &[], &[]),
            definition("story/mine", &["other"], &[&["other"]]),
        ],
    }
}

fn manager_with(player: &str) -> AdvancementManager {
    let mut m = AdvancementManager::new(vanilla());
    m.init_player(player.to_string());
    m
}

#[test]
fn text_helpers() {
    assert!(str_eq("abc", "abc"));
    assert!(!str_eq("abc", "abd"));
    assert!(!str_eq("ab", "abc"));
    assert!(str_eq("é", "é"));
    assert!(str_starts_with("story/mine:stone", "story/mine:"));
    assert!(!str_starts_with("story/mine", "story/mine:"));
    assert!(str_starts_with("x", ""));
    assert_eq!(join("a", "b"), "ab");
    assert_eq!(make_criterion_key("adv", "crit"), "adv:crit");
    assert_eq!(make_key_prefix("adv"), "adv:");
}

#[test]
fn law_criterion_key_has_prefix_example() {
    for (a, c) in [("story/mine", "iron"), ("a:b", "c"), ("", ""), ("é", "ü:x")] {
        assert!(str_starts_with(&make_criterion_key(a, c), &make_key_prefix(a)));
    }
}

#[test]
fn string_map_basics() {
    let mut m: StringMap<u32> = StringMap::new();
    assert_eq!(m.len(), 0);
    assert_eq!(m.insert("a".to_string(), 1), None);
    assert_eq!(m.insert("b".to_string(), 2), None);
    assert_eq!(m.insert("a".to_string(), 3), Some(1));
    assert_eq!(m.len(), 2);
    assert_eq!(m.get("a"), Some(&3));
    assert_eq!(m.get("c"), None);
    assert!(m.contains_key("b"));
    let mut keys = m.keys();
    keys.sort();
    assert_eq!(keys, vec!["a".to_string(), "b".to_string()]);
    let c = m.clone();
    assert_eq!(c.get("b"), Some(&2));
}

#[test]
fn vanilla_lookup_takes_first_definition() {
    let v = vanilla();
    assert_eq!(v.get("story/mine").unwrap().criteria, vec!["stone".to_string(), "iron".to_string()]);
    assert!(v.contains_key("story/free"));
    assert!(!v.contains_key("story/none"));
    assert!(v.get("story/none").is_none());
}

#[test]
fn unknown_player_has_no_state() {
    let m = AdvancementManager::new(vanilla());
    assert!(m.get_player_state("nobody").is_none());
}

#[test]
fn law_init_player_idempotent_example() {
    let mut m = manager_with("p");
    let s = m.get_player_state("p").unwrap();
    assert_eq!(s.completed.len(), 0);
    assert_eq!(s.criteria.len(), 0);
    assert!(s.selected_tab.is_none());
    m.set_selected_tab("p", Some("story/root".to_string()));
    m.init_player("p".to_string());
    assert_eq!(m.get_player_state("p").unwrap().selected_tab.as_deref(), Some("story/root"));
}

#[test]
fn law_grant_unknown_player_example() {
    let mut m = manager_with("p");
    assert_eq!(m.grant_criterion("q", "story/mine", "stone", Some(1)), (false, false));
    assert!(m.get_player_state("q").is_none());
}

#[test]
fn law_grant_records_criterion_example() {
    let mut m = manager_with("p");
    m.init_player("other".to_string());
    assert_eq!(m.grant_criterion("p", "story/smelt", "a", Some(42)), (true, false));
    let s = m.get_player_state("p").unwrap();
    let rec = s.criteria.get("story/smelt:a").unwrap();
    assert_eq!(rec.criterion_id, "a");
    assert!(rec.achieved);
    assert_eq!(rec.date, Some(42));
    assert_eq!(m.get_player_state("other").unwrap().criteria.len(), 0);
}

#[test]
fn law_grant_twice_example() {
    let mut m = manager_with("p");
    assert_eq!(m.grant_criterion("p", "story/smelt", "a", Some(1)), (true, false));
    assert_eq!(m.grant_criterion("p", "story/smelt", "a", Some(2)), (false, false));
    let s = m.get_player_state("p").unwrap();
    assert_eq!(s.criteria.get("story/smelt:a").unwrap().date, Some(1));
}

#[test]
fn requirements_complete_when_every_group_has_a_criterion() {
    let mut m = manager_with("p");
    assert_eq!(m.grant_criterion("p", "story/smelt", "b", None), (true, false));
    assert_eq!(m.grant_criterion("p", "story/smelt", "c", None), (true, true));
}

#[test]
fn requirements_use_first_definition() {
    let mut m = manager_with("p");
    assert_eq!(m.grant_criterion("p", "story/mine", "other", None), (true, false));
    assert_eq!(m.grant_criterion("p", "story/mine", "iron", None), (true, true));
}

#[test]
fn definition_without_requirements_completes_at_once() {
    let mut m = manager_with("p");
    assert_eq!(m.grant_criterion("p", "story/free", "anything", None), (true, true));
}

#[test]
fn law_undefined_advancement_completes_on_grant_example() {
    let mut m = manager_with("p");
    assert_eq!(m.grant_criterion("p", "custom/x", "one", None), (true, true));
    assert_eq!(m.grant_criterion("p", "custom/x", "two", None), (true, true));
}

#[test]
fn fallback_reads_recorded_criteria() {
    let m = AdvancementManager::new(VanillaAdvancements::default());
    let mut state = PlayerAdvancementState::default();
    assert!(!m.check_advancement_completion(&state, "custom/x"));
    state.criteria.insert(
        "custom/x:one".to_string(),
        CriterionProgress { criterion_id: "one".to_string(), achieved: true, date: None },
    );
    assert!(m.check_advancement_completion(&state, "custom/x"));
    state.criteria.insert(
        "custom/x:two".to_string(),
        CriterionProgress { criterion_id: "two".to_string(), achieved: false, date: None },
    );
    assert!(!m.check_advancement_completion(&state, "custom/x"));
    assert!(!m.check_advancement_completion(&state, "custom"));
}

#[test]
fn criterion_keys_can_collide() {
    let mut m = AdvancementManager::new(VanillaAdvancements::default());
    m.init_player("p".to_string());
    assert_eq!(m.grant_criterion("p", "a:b", "c", None), (true, true));
    assert_eq!(m.grant_criterion("p", "a", "b:c", None), (false, false));
}

#[test]
fn law_completion_monotone_example() {
    let mut m = manager_with("p");
    assert_eq!(m.grant_criterion("p", "story/smelt", "a", None), (true, false));
    assert_eq!(m.grant_criterion("p", "story/smelt", "c", None), (true, true));
    assert_eq!(m.grant_criterion("p", "story/smelt", "b", None), (true, true));
}

#[test]
fn law_complete_twice_example() {
    let mut m = manager_with("p");
    assert!(m.complete_advancement("p", "story/mine", "stone"));
    assert!(!m.complete_advancement("p", "story/mine", "iron"));
    assert!(!m.complete_advancement("q", "story/mine", "iron"));
    let s = m.get_player_state("p").unwrap();
    let done: &CompletedAdvancement = s.completed.get("story/mine").unwrap();
    assert_eq!(done.id, "story/mine");
    assert_eq!(done.criterion, "stone");
}

#[test]
fn law_selected_tab_read_back_example() {
    let mut m = manager_with("p");
    m.set_selected_tab("p", Some("story/root".to_string()));
    assert_eq!(m.get_player_state("p").unwrap().selected_tab.as_deref(), Some("story/root"));
    m.set_selected_tab("p", None);
    assert!(m.get_player_state("p").unwrap().selected_tab.is_none());
    m.set_selected_tab("q", Some("x".to_string()));
    assert!(m.get_player_state("q").is_none());
}

#[test]
fn law_operations_keep_criteria_achieved_example() {
    let mut m = manager_with("p");
    m.grant_criterion("p", "story/smelt", "a", None);
    m.complete_advancement("p", "story/smelt", "a");
    m.set_selected_tab("p", None);
    let s = m.get_player_state("p").unwrap();
    for k in s.criteria.keys() {
        assert!(s.criteria.get(&k).unwrap().achieved);
    }
}

#[test]
fn default_manager_is_empty() {
    let mut m = AdvancementManager::default();
    assert!(m.get_player_state("p").is_none());
    m.init_player("p".to_string());
    assert_eq!(m.grant_criterion("p", "story/smelt", "a", None), (true, true));
}

#[test]
fn decimal_numbers() {
    assert_eq!(decimal_string(0), "0");
    assert_eq!(decimal_string(7), "7");
    assert_eq!(decimal_string(10), "10");
    assert_eq!(decimal_string(1234), "1234");
    assert_eq!(decimal_string(usize::MAX), usize::MAX.to_string());
}

#[test]
fn command_constants() {
    assert_eq!(DESCRIPTION, "Grant or revoke player advancements.");
    assert_eq!(PERMISSION, "minecraft:command.advancement");
}

#[test]
fn law_every_action_has_words_example() {
    let p = parse_command(&["grant", "target", "Steve", "everything"]).unwrap();
    assert_eq!(p.action, AdvancementAction::GrantAll);
    assert_eq!(p.player, "Steve");
    assert!(p.advancement.is_none() && p.criterion.is_none());
    let p = parse_command(&["revoke", "target", "Steve", "everything"]).unwrap();
    assert_eq!(p.action, AdvancementAction::RevokeAll);
    let p = parse_command(&["grant", "target", "Steve", "from", "advancement", "story/mine"]).unwrap();
    assert_eq!(p.action, AdvancementAction::GrantAdvancement);
    assert_eq!(p.advancement.as_deref(), Some("story/mine"));
    let p = parse_command(&["revoke", "target", "Steve", "from", "advancement", "story/mine"]).unwrap();
    assert_eq!(p.action, AdvancementAction::RevokeAdvancement);
    let words = ["grant", "target", "Steve", "from", "advancement", "story/mine", "only", "iron"];
    let p = parse_command(&words).unwrap();
    assert_eq!(p.action, AdvancementAction::GrantCriterion);
    assert_eq!(p.criterion.as_deref(), Some("iron"));
    let words = ["revoke", "target", "Steve", "from", "advancement", "story/mine", "only", "iron"];
    assert_eq!(parse_command(&words).unwrap().action, AdvancementAction::RevokeCriterion);
}

#[test]
fn malformed_command_lines() {
    assert!(parse_command(&[]).is_none());
    assert!(parse_command(&["grant", "target", "Steve"]).is_none());
    assert!(parse_command(&["give", "target", "Steve", "everything"]).is_none());
    assert!(parse_command(&["grant", "player", "Steve", "everything"]).is_none());
    assert!(parse_command(&["grant", "target", "Steve", "all"]).is_none());
    assert!(parse_command(&["grant", "target", "Steve", "everything", "now"]).is_none());
    assert!(parse_command(&["grant", "target", "Steve", "from", "story/mine", "x"]).is_none());
    assert!(parse_command(&["grant", "target", "S", "from", "advancement", "a", "just", "c"]).is_none());
    assert!(parse_command(&["grant", "target", "S", "from", "advancement", "a", "only"]).is_none());
}

fn run(
    action: AdvancementAction,
    advancement: Option<&str>,
    criterion: Option<&str>,
) -> Result<(Vec<(String, String)>, String), CommandError> {
    AdvancementCommandExecutor(action)
        .execute(&vanilla(), "Steve", advancement, criterion)
        .map(|o| (o.grants, o.message))
}

fn pairs(v: &[(&str, &str)]) -> Vec<(String, String)> {
    v.iter().map(|(a, c)| (a.to_string(), c.to_string())).collect()
}

#[test]
fn grant_everything() {
    let (grants, message) = run(AdvancementAction::GrantAll, None, None).unwrap();
    assert_eq!(
        grants,
        pairs(&[
            ("story/mine", "stone"),
            ("story/mine", "iron"),
            ("story/smelt", "a"),
            ("story/smelt", "b"),
            ("story/smelt", "c"),
            ("story/mine", "other"),
        ])
    );
    assert_eq!(message, "Granted 4 advancements to Steve");
}

#[test]
fn law_grants_name_the_advancement_example() {
    let (grants, message) = run(AdvancementAction::GrantAdvancement, Some("story/mine"), None).unwrap();
    assert_eq!(grants, pairs(&[("story/mine", "stone"), ("story/mine", "iron")]));
    assert_eq!(message, "Granted advancement story/mine to Steve");
    let (grants, message) = run(AdvancementAction::GrantAdvancement, Some("nope"), None).unwrap();
    assert!(grants.is_empty());
    assert_eq!(message, "Unknown advancement: nope");
    let (grants, message) =
        run(AdvancementAction::GrantCriterion, Some("story/mine"), Some("anything")).unwrap();
    assert_eq!(grants, pairs(&[("story/mine", "anything")]));
    assert_eq!(message, "Granted criterion anything of advancement story/mine to Steve");
    let (grants, message) = run(AdvancementAction::GrantCriterion, Some("nope"), Some("c")).unwrap();
    assert!(grants.is_empty());
    assert_eq!(message, "Unknown advancement: nope");
}

#[test]
fn revoke_messages() {
    let (grants, message) = run(AdvancementAction::RevokeAll, None, None).unwrap();
    assert!(grants.is_empty());
    assert_eq!(message, "Revoking all advancements from Steve (not yet implemented)");
    let (_, message) = run(AdvancementAction::RevokeAdvancement, Some("story/mine"), None).unwrap();
    assert_eq!(message, "Revoking advancement story/mine from Steve (not yet implemented)");
    let (_, message) = run(AdvancementAction::RevokeCriterion, Some("story/mine"), Some("iron")).unwrap();
    assert_eq!(
        message,
        "Revoking criterion iron of advancement story/mine from Steve (not yet implemented)"
    );
}

#[test]
fn law_parsed_command_runs_and_missing_arguments() {
    let missing_adv = CommandError::MissingArgument(CommandArgument::Advancement);
    let missing_crit = CommandError::MissingArgument(CommandArgument::Criterion);
    assert_eq!(run(AdvancementAction::GrantAdvancement, None, None).err(), Some(missing_adv));
    assert_eq!(run(AdvancementAction::RevokeAdvancement, None, Some("c")).err(), Some(missing_adv));
    assert_eq!(run(AdvancementAction::GrantCriterion, None, None).err(), Some(missing_adv));
    assert_eq!(run(AdvancementAction::GrantCriterion, Some("a"), None).err(), Some(missing_crit));
    assert_eq!(run(AdvancementAction::RevokeCriterion, Some("a"), None).err(), Some(missing_crit));
    let words = ["grant", "target", "Steve", "from", "advancement", "story/smelt", "only", "c"];
    let p = parse_command(&words).unwrap();
    let out = AdvancementCommandExecutor(p.action)
        .execute(&vanilla(), &p.player, p.advancement.as_deref(), p.criterion.as_deref())
        .unwrap();
    assert_eq!(out.grants, pairs(&[("story/smelt", "c")]));
}

#[test]
fn run_command_grants_and_answers() {
    let mut m = manager_with("p");
    let ex = AdvancementCommandExecutor(AdvancementAction::GrantAdvancement);
    let msg = ex.run(&mut m, true, "p", "Steve", Some("story/smelt"), None, Some(9)).unwrap();
    assert_eq!(msg, "Granted advancement story/smelt to Steve");
    let s = m.get_player_state("p").unwrap();
    assert_eq!(s.criteria.len(), 3);
    assert_eq!(s.criteria.get("story/smelt:b").unwrap().date, Some(9));
}

#[test]
fn run_command_needs_permission() {
    let mut m = manager_with("p");
    let ex = AdvancementCommandExecutor(AdvancementAction::GrantAll);
    assert_eq!(ex.run(&mut m, false, "p", "Steve", None, None, None), Err(CommandError::PermissionDenied));
    assert_eq!(m.get_player_state("p").unwrap().criteria.len(), 0);
    let ex = AdvancementCommandExecutor(AdvancementAction::GrantCriterion);
    assert_eq!(
        ex.run(&mut m, true, "p", "Steve", Some("story/mine"), None, None),
        Err(CommandError::MissingArgument(CommandArgument::Criterion))
    );
    assert_eq!(m.get_player_state("p").unwrap().criteria.len(), 0);
}

#[test]
fn apply_grants_in_order() {
    let mut m = manager_with("p");
    let grants = vec![
        ("story/smelt".to_string(), "a".to_string()),
        ("story/smelt".to_string(), "a".to_string()),
        ("custom/x".to_string(), "y".to_string()),
    ];
    m.apply_grants("p", &grants, None);
    let s = m.get_player_state("p").unwrap();
    assert_eq!(s.criteria.len(), 2);
    assert_eq!(m.vanilla_advancements().advancements.len(), 4);
}
