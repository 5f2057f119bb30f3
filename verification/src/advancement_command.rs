//! The `/advancement` command: which criteria it grants and what it answers.
use vstd::prelude::*;
use crate::advancement_data::{
    grant_each_spec, grants_view, lookup_advancement, AdvancementManager, VanillaAdvancements,
};
use crate::text::str_eq;
use crate::update_advancements::{opt_view, Advancement};

verus! {

/// The command's description.
pub const DESCRIPTION: &'static str = "Grant or revoke player advancements.";

/// The permission the command asks for.
pub const PERMISSION: &'static str = "minecraft:command.advancement";

/// What an `/advancement` command line asks for.
#[derive(Clone, Copy, Debug, PartialEq, Eq)]
pub enum AdvancementAction {
    GrantAll,
    GrantAdvancement,
    GrantCriterion,
    RevokeAll,
    RevokeAdvancement,
    RevokeCriterion,
}

/// Runs one kind of `/advancement` command.
pub struct AdvancementCommandExecutor(pub AdvancementAction);

/// A command line that names one of the actions, with its arguments.
pub struct ParsedCommand {
    pub action: AdvancementAction,
    pub player: String,
    pub advancement: Option<String>,
    pub criterion: Option<String>,
}

/// A parsed command as seen in contracts.
pub open spec fn parsed_view(p: ParsedCommand) -> (
    AdvancementAction,
    Seq<char>,
    Option<Seq<char>>,
    Option<Seq<char>>,
) {
    (p.action, p.player@, opt_view(p.advancement), opt_view(p.criterion))
}

/// The words of a command line as seen in contracts.
pub open spec fn words_view(words: Seq<&str>) -> Seq<Seq<char>> {
    words.map_values(|w: &str| w@)
}

/// The command syntax: `grant` or `revoke`, then `target` and the player, then either
/// `everything`, or `from advancement` and the advancement, optionally followed by
/// `only` and the criterion. Each argument is one word.
pub open spec fn command_syntax(words: Seq<Seq<char>>) -> Option<
    (AdvancementAction, Seq<char>, Option<Seq<char>>, Option<Seq<char>>),
> {
    let grant = words.len() > 0 && words[0] == "grant"@;
    let revoke = words.len() > 0 && words[0] == "revoke"@;
    if !(grant || revoke) || words.len() < 4 || words[1] != "target"@ {
        None
    } else if words.len() == 4 && words[3] == "everything"@ {
        Some(
            (
                if grant {
                    AdvancementAction::GrantAll
                } else {
                    AdvancementAction::RevokeAll
                },
                words[2],
                None,
                None,
            ),
        )
    } else if words.len() == 6 && words[3] == "from"@ && words[4] == "advancement"@ {
        Some(
            (
                if grant {
                    AdvancementAction::GrantAdvancement
                } else {
                    AdvancementAction::RevokeAdvancement
                },
                words[2],
                Some(words[5]),
                None,
            ),
        )
    } else if words.len() == 8 && words[3] == "from"@ && words[4] == "advancement"@ && words[6]
        == "only"@ {
        Some(
            (
                if grant {
                    AdvancementAction::GrantCriterion
                } else {
                    AdvancementAction::RevokeCriterion
                },
                words[2],
                Some(words[5]),
                Some(words[7]),
            ),
        )
    } else {
        None
    }
}

/// Reads a command line, split into words, by the command syntax.
pub fn parse_command(words: &[&str]) -> (r: Option<ParsedCommand>)
    ensures
        match r {
            Some(p) => command_syntax(words_view(words@)) == Some(parsed_view(p)),
            None => command_syntax(words_view(words@)) is None,
        },
{
    let ghost w = words_view(words@);
    let n = words.len();
    if n < 4 {
        return None;
    }
    assert(w.len() == n);
    let grant = str_eq(words[0], "grant");
    let revoke = str_eq(words[0], "revoke");
    if !(grant || revoke) || !str_eq(words[1], "target") {
        return None;
    }
    let player = words[2].to_owned();
    if n == 4 && str_eq(words[3], "everything") {
        let action = if grant {
            AdvancementAction::GrantAll
        } else {
            AdvancementAction::RevokeAll
        };
        return Some(ParsedCommand { action, player, advancement: None, criterion: None });
    }
    if (n == 6 || n == 8) && str_eq(words[3], "from") && str_eq(words[4], "advancement") {
        let advancement = words[5].to_owned();
        if n == 6 {
            let action = if grant {
                AdvancementAction::GrantAdvancement
            } else {
                AdvancementAction::RevokeAdvancement
            };
            return Some(
                ParsedCommand { action, player, advancement: Some(advancement), criterion: None },
            );
        }
        if str_eq(words[6], "only") {
            let action = if grant {
                AdvancementAction::GrantCriterion
            } else {
                AdvancementAction::RevokeCriterion
            };
            let criterion = words[7].to_owned();
            return Some(
                ParsedCommand {
                    action,
                    player,
                    advancement: Some(advancement),
                    criterion: Some(criterion),
                },
            );
        }
    }
    None
}

/// An argument of the command.
#[derive(Clone, Copy, Debug, PartialEq, Eq)]
pub enum CommandArgument {
    Advancement,
    Criterion,
}

/// Why the command could not run.
#[derive(Clone, Copy, Debug, PartialEq, Eq)]
pub enum CommandError {
    /// An argument the action needs was not given.
    MissingArgument(CommandArgument),
    /// The sender does not hold the command's permission.
    PermissionDenied,
}

/// What running the command comes to: the criteria to grant, as pairs of advancement
/// id and criterion, in order, and the message for the target player.
pub struct CommandOutcome {
    pub grants: Vec<(String, String)>,
    pub message: String,
}

/// The character of a decimal digit.
pub open spec fn digit_char(d: nat) -> char {
    (d + 48) as char
}

/// The decimal digits of a number, most significant first.
pub open spec fn decimal(n: nat) -> Seq<char>
    decreases n,
{
    if n < 10 {
        seq![digit_char(n)]
    } else {
        decimal(n / 10) + seq![digit_char(n % 10)]
    }
}

/// The one-character string of a decimal digit.
fn digit_str(d: usize) -> (r: &'static str)
    requires
        d < 10,
    ensures
        r@ == seq![digit_char(d as nat)],
{
    proof {
        reveal_strlit("0");
        reveal_strlit("1");
        reveal_strlit("2");
        reveal_strlit("3");
        reveal_strlit("4");
        reveal_strlit("5");
        reveal_strlit("6");
        reveal_strlit("7");
        reveal_strlit("8");
        reveal_strlit("9");
    }
    if d == 0 {
        "0"
    } else if d == 1 {
        "1"
    } else if d == 2 {
        "2"
    } else if d == 3 {
        "3"
    } else if d == 4 {
        "4"
    } else if d == 5 {
        "5"
    } else if d == 6 {
        "6"
    } else if d == 7 {
        "7"
    } else if d == 8 {
        "8"
    } else {
        "9"
    }
}

/// The decimal digits of `n`, as a string.
pub fn decimal_string(n: usize) -> (r: String)
    ensures
        r@ == decimal(n as nat),
    decreases n,
{
    if n < 10 {
        digit_str(n).to_owned()
    } else {
        let mut r = decimal_string(n / 10);
        r.append(digit_str(n % 10));
        r
    }
}

/// The grants of all criteria of one advancement, in order.
pub open spec fn criteria_grants(advancement: Seq<char>, criteria: Seq<String>) -> Seq<
    (Seq<char>, Seq<char>),
> {
    criteria.map_values(|c: String| (advancement, c@))
}

/// The grants of all criteria of all advancements, in order.
pub open spec fn all_grants(advancements: Seq<Advancement>) -> Seq<(Seq<char>, Seq<char>)>
    decreases advancements.len(),
{
    if advancements.len() == 0 {
        seq![]
    } else {
        all_grants(advancements.drop_last()) + criteria_grants(
            advancements.last().id@,
            advancements.last().criteria@,
        )
    }
}

/// The answer to granting all advancements.
pub open spec fn granted_all_message(count: nat, target: Seq<char>) -> Seq<char> {
    "Granted "@ + decimal(count) + " advancements to "@ + target
}

/// The answer to granting one advancement.
pub open spec fn granted_advancement_message(advancement: Seq<char>, target: Seq<char>) -> Seq<
    char,
> {
    "Granted advancement "@ + advancement + " to "@ + target
}

/// The answer to granting one criterion.
pub open spec fn granted_criterion_message(
    criterion: Seq<char>,
    advancement: Seq<char>,
    target: Seq<char>,
) -> Seq<char> {
    "Granted criterion "@ + criterion + " of advancement "@ + advancement + " to "@ + target
}

/// The answer when the advancement is not defined.
pub open spec fn unknown_advancement_message(advancement: Seq<char>) -> Seq<char> {
    "Unknown advancement: "@ + advancement
}

/// The answer to revoking all advancements.
pub open spec fn revoke_all_message(target: Seq<char>) -> Seq<char> {
    "Revoking all advancements from "@ + target + " (not yet implemented)"@
}

/// The answer to revoking one advancement.
pub open spec fn revoke_advancement_message(advancement: Seq<char>, target: Seq<char>) -> Seq<
    char,
> {
    "Revoking advancement "@ + advancement + " from "@ + target + " (not yet implemented)"@
}

/// The answer to revoking one criterion.
pub open spec fn revoke_criterion_message(
    criterion: Seq<char>,
    advancement: Seq<char>,
    target: Seq<char>,
) -> Seq<char> {
    "Revoking criterion "@ + criterion + " of advancement "@ + advancement + " from "@ + target
        + " (not yet implemented)"@
}

/// The view of an optional argument.
pub open spec fn arg_view(o: Option<&str>) -> Option<Seq<char>> {
    match o {
        Some(s) => Some(s@),
        None => None,
    }
}

/// What the command comes to: the grants and the message, or the missing argument.
/// The advancement argument is read before the criterion.
pub open spec fn command_outcome(
    action: AdvancementAction,
    definitions: Seq<Advancement>,
    target: Seq<char>,
    advancement: Option<Seq<char>>,
    criterion: Option<Seq<char>>,
) -> Result<(Seq<(Seq<char>, Seq<char>)>, Seq<char>), CommandError> {
    let needs_advancement = !(action is GrantAll || action is RevokeAll);
    let needs_criterion = action is GrantCriterion || action is RevokeCriterion;
    if needs_advancement && advancement is None {
        Err(CommandError::MissingArgument(CommandArgument::Advancement))
    } else if needs_criterion && criterion is None {
        Err(CommandError::MissingArgument(CommandArgument::Criterion))
    } else {
        let a = advancement.unwrap();
        let c = criterion.unwrap();
        match action {
            AdvancementAction::GrantAll => Ok(
                (all_grants(definitions), granted_all_message(definitions.len(), target)),
            ),
            AdvancementAction::GrantAdvancement => match lookup_advancement(definitions, a) {
                Some(def) => Ok(
                    (criteria_grants(a, def.criteria@), granted_advancement_message(a, target)),
                ),
                None => Ok((seq![], unknown_advancement_message(a))),
            },
            AdvancementAction::GrantCriterion => match lookup_advancement(definitions, a) {
                Some(def) => Ok((seq![(a, c)], granted_criterion_message(c, a, target))),
                None => Ok((seq![], unknown_advancement_message(a))),
            },
            AdvancementAction::RevokeAll => Ok((seq![], revoke_all_message(target))),
            AdvancementAction::RevokeAdvancement => Ok(
                (seq![], revoke_advancement_message(a, target)),
            ),
            AdvancementAction::RevokeCriterion => Ok(
                (seq![], revoke_criterion_message(c, a, target)),
            ),
        }
    }
}

/// Joins the given pieces into one string.
fn concat(parts: &[&str]) -> (r: String)
    ensures
        r@ == concat_spec(parts@),
{
    let mut r = String::new();
    let mut i: usize = 0;
    while i < parts.len()
        invariant
            i <= parts@.len(),
            r@ == concat_spec(parts@.take(i as int)),
        decreases parts@.len() - i,
    {
        r.append(parts[i]);
        assert(parts@.take(i as int + 1).drop_last() =~= parts@.take(i as int));
        i = i + 1;
    }
    assert(parts@.take(parts@.len() as int) =~= parts@);
    r
}

/// The characters of the given pieces, one after the other.
pub open spec fn concat_spec(parts: Seq<&str>) -> Seq<char>
    decreases parts.len(),
{
    if parts.len() == 0 {
        seq![]
    } else {
        concat_spec(parts.drop_last()) + parts.last()@
    }
}

/// Appends the grants of every criterion of `def`, read as criteria of `advancement`.
fn push_criteria_grants(grants: &mut Vec<(String, String)>, advancement: &str, def: &Advancement)
    ensures
        grants_view(final(grants)@) == grants_view(old(grants)@) + criteria_grants(advancement@, def.criteria@),
{
    let ghost start = grants_view(old(grants)@);
    let mut j: usize = 0;
    while j < def.criteria.len()
        invariant
            j <= def.criteria@.len(),
            grants_view(grants@) == start + criteria_grants(
                advancement@,
                def.criteria@.take(j as int),
            ),
        decreases def.criteria@.len() - j,
    {
        let ghost before = grants@;
        grants.push((advancement.to_owned(), def.criteria[j].clone()));
        assert(grants_view(grants@) =~= grants_view(before).push(
            (advancement@, def.criteria@[j as int]@),
        ));
        assert(criteria_grants(advancement@, def.criteria@.take(j as int + 1)) =~= criteria_grants(
            advancement@,
            def.criteria@.take(j as int),
        ).push((advancement@, def.criteria@[j as int]@)));
        j = j + 1;
    }
    assert(def.criteria@.take(def.criteria@.len() as int) =~= def.criteria@);
}

/// Grants every criterion of every defined advancement.
fn grant_all(vanilla: &VanillaAdvancements, target: &str) -> (o: CommandOutcome)
    ensures
        grants_view(o.grants@) == all_grants(
            vanilla.advancements@,
        ),
        o.message@ == granted_all_message(vanilla.advancements@.len(), target@),
{
    let mut grants: Vec<(String, String)> = Vec::new();
    let advs = &vanilla.advancements;
    let mut i: usize = 0;
    while i < advs.len()
        invariant
            i <= advs@.len(),
            grants_view(grants@) == all_grants(
                advs@.take(i as int),
            ),
        decreases advs@.len() - i,
    {
        push_criteria_grants(&mut grants, advs[i].id.as_str(), &advs[i]);
        assert(advs@.take(i as int + 1).drop_last() =~= advs@.take(i as int));
        i = i + 1;
    }
    assert(advs@.take(advs@.len() as int) =~= advs@);
    let count = decimal_string(advs.len());
    let parts = ["Granted ", count.as_str(), " advancements to ", target];
    let message = concat(&parts);
    proof {
        reveal_with_fuel(concat_spec, 5);
    }
    CommandOutcome { grants, message }
}

impl AdvancementCommandExecutor {
    /// Works out the command for the `target` player: the criteria to grant and the
    /// message to send, or the argument that is missing.
    pub fn execute(
        &self,
        vanilla: &VanillaAdvancements,
        target: &str,
        advancement: Option<&str>,
        criterion: Option<&str>,
    ) -> (r: Result<CommandOutcome, CommandError>)
        ensures
            match r {
                Ok(o) => command_outcome(
                    self.0,
                    vanilla.advancements@,
                    target@,
                    arg_view(advancement),
                    arg_view(criterion),
                ) == Ok::<_, CommandError>(
                    (grants_view(o.grants@), o.message@),
                ),
                Err(e) => command_outcome(
                    self.0,
                    vanilla.advancements@,
                    target@,
                    arg_view(advancement),
                    arg_view(criterion),
                ) == Err::<(Seq<(Seq<char>, Seq<char>)>, Seq<char>), _>(e),
            },
    {
        let mut grants: Vec<(String, String)> = Vec::new();
        assert(grants_view(grants@) =~= seq![]);
        match self.0 {
            AdvancementAction::GrantAll => Ok(grant_all(vanilla, target)),
            AdvancementAction::RevokeAll => {
                let parts = ["Revoking all advancements from ", target, " (not yet implemented)"];
                let message = concat(&parts);
                proof {
                    reveal_with_fuel(concat_spec, 4);
                }
                Ok(CommandOutcome { grants, message })
            },
            _ => {
                let a = match advancement {
                    Some(a) => a,
                    None => {
                        return Err(CommandError::MissingArgument(CommandArgument::Advancement));
                    },
                };
                match self.0 {
                    AdvancementAction::GrantAdvancement => {
                        match vanilla.get(a) {
                            Some(def) => {
                                push_criteria_grants(&mut grants, a, def);
                                assert(grants_view(grants@)
                                    =~= seq![] + criteria_grants(a@, def.criteria@));
                                let parts = ["Granted advancement ", a, " to ", target];
                                let message = concat(&parts);
                                proof {
                                    reveal_with_fuel(concat_spec, 5);
                                }
                                Ok(CommandOutcome { grants, message })
                            },
                            None => {
                                let parts = ["Unknown advancement: ", a];
                                let message = concat(&parts);
                                proof {
                                    reveal_with_fuel(concat_spec, 3);
                                }
                                Ok(CommandOutcome { grants, message })
                            },
                        }
                    },
                    AdvancementAction::RevokeAdvancement => {
                        let parts = [
                            "Revoking advancement ",
                            a,
                            " from ",
                            target,
                            " (not yet implemented)",
                        ];
                        let message = concat(&parts);
                        proof {
                            reveal_with_fuel(concat_spec, 6);
                        }
                        Ok(CommandOutcome { grants, message })
                    },
                    _ => {
                        let c = match criterion {
                            Some(c) => c,
                            None => {
                                return Err(
                                    CommandError::MissingArgument(CommandArgument::Criterion),
                                );
                            },
                        };
                        if let AdvancementAction::GrantCriterion = self.0 {
                            if vanilla.contains_key(a) {
                                grants.push((a.to_owned(), c.to_owned()));
                                assert(grants_view(grants@)
                                    =~= seq![(a@, c@)]);
                                let parts = [
                                    "Granted criterion ",
                                    c,
                                    " of advancement ",
                                    a,
                                    " to ",
                                    target,
                                ];
                                let message = concat(&parts);
                                proof {
                                    reveal_with_fuel(concat_spec, 7);
                                }
                                Ok(CommandOutcome { grants, message })
                            } else {
                                let parts = ["Unknown advancement: ", a];
                                let message = concat(&parts);
                                proof {
                                    reveal_with_fuel(concat_spec, 3);
                                }
                                Ok(CommandOutcome { grants, message })
                            }
                        } else {
                            let parts = [
                                "Revoking criterion ",
                                c,
                                " of advancement ",
                                a,
                                " from ",
                                target,
                                " (not yet implemented)",
                            ];
                            let message = concat(&parts);
                            proof {
                                reveal_with_fuel(concat_spec, 8);
                            }
                            Ok(CommandOutcome { grants, message })
                        }
                    },
                }
            },
        }
    }

    /// Runs the command for the player `player_id`, shown as `target`: when the sender
    /// holds the permission, grants what the command asks for, in order, all at time
    /// `now`, and gives back the message for the player. Nothing changes when the
    /// sender lacks the permission or an argument is missing.
    pub fn run(
        &self,
        manager: &mut AdvancementManager,
        permitted: bool,
        player_id: &str,
        target: &str,
        advancement: Option<&str>,
        criterion: Option<&str>,
        now: Option<i64>,
    ) -> (r: Result<String, CommandError>)
        ensures
            final(manager).definitions() == old(manager).definitions(),
            !permitted ==> r == Err::<String, _>(CommandError::PermissionDenied) && final(manager)@
                == old(manager)@,
            permitted ==> match command_outcome(
                self.0,
                old(manager).definitions(),
                target@,
                arg_view(advancement),
                arg_view(criterion),
            ) {
                Ok((grants, message)) => {
                    &&& r matches Ok(m) && m@ == message
                    &&& final(manager)@ == grant_each_spec(
                        old(manager)@,
                        old(manager).definitions(),
                        player_id@,
                        grants,
                        now,
                    )
                },
                Err(e) => r == Err::<String, _>(e) && final(manager)@ == old(manager)@,
            },
    {
        if !permitted {
            return Err(CommandError::PermissionDenied);
        }
        let outcome = self.execute(manager.vanilla_advancements(), target, advancement, criterion);
        match outcome {
            Ok(o) => {
                manager.apply_grants(player_id, o.grants.as_slice(), now);
                Ok(o.message)
            },
            Err(e) => Err(e),
        }
    }
}

/// The words that ask for an action with the given arguments.
pub open spec fn command_words(
    action: AdvancementAction,
    player: Seq<char>,
    advancement: Seq<char>,
    criterion: Seq<char>,
) -> Seq<Seq<char>> {
    let mode = if action is GrantAll || action is GrantAdvancement || action is GrantCriterion {
        "grant"@
    } else {
        "revoke"@
    };
    match action {
        AdvancementAction::GrantAll | AdvancementAction::RevokeAll => seq![
            mode,
            "target"@,
            player,
            "everything"@,
        ],
        AdvancementAction::GrantAdvancement | AdvancementAction::RevokeAdvancement => seq![
            mode,
            "target"@,
            player,
            "from"@,
            "advancement"@,
            advancement,
        ],
        _ => seq![
            mode,
            "target"@,
            player,
            "from"@,
            "advancement"@,
            advancement,
            "only"@,
            criterion,
        ],
    }
}

/// Every action can be asked for, and the words that ask for it read back as that
/// action with its arguments.
pub proof fn law_every_action_has_words(
    action: AdvancementAction,
    player: Seq<char>,
    advancement: Seq<char>,
    criterion: Seq<char>,
)
    ensures
        command_syntax(command_words(action, player, advancement, criterion)) == Some(
            (
                action,
                player,
                if action is GrantAll || action is RevokeAll {
                    None
                } else {
                    Some(advancement)
                },
                if action is GrantCriterion || action is RevokeCriterion {
                    Some(criterion)
                } else {
                    None
                },
            ),
        ),
{
    reveal_strlit("grant");
    reveal_strlit("revoke");
    reveal_strlit("target");
    reveal_strlit("everything");
    reveal_strlit("from");
    reveal_strlit("advancement");
    reveal_strlit("only");
    let w = command_words(action, player, advancement, criterion);
    assert("grant"@ != "revoke"@) by {
        assert("grant"@.len() != "revoke"@.len());
    }
    assert("everything"@ != "from"@) by {
        assert("everything"@.len() != "from"@.len());
    }
}

/// A command line that follows the syntax always carries the arguments its action
/// needs, so running it never fails for a missing argument.
pub proof fn law_parsed_command_runs(
    words: Seq<Seq<char>>,
    definitions: Seq<Advancement>,
    target: Seq<char>,
)
    requires
        command_syntax(words) is Some,
    ensures
        ({
            let (action, _player, advancement, criterion) = command_syntax(words).unwrap();
            command_outcome(action, definitions, target, advancement, criterion) is Ok
        }),
{
}

/// Granting one advancement or one of its criteria only ever grants criteria of that
/// advancement, and grants nothing when it has no definition.
pub proof fn law_grants_name_the_advancement(
    action: AdvancementAction,
    definitions: Seq<Advancement>,
    target: Seq<char>,
    advancement: Seq<char>,
    criterion: Option<Seq<char>>,
)
    requires
        action is GrantAdvancement || action is GrantCriterion,
        command_outcome(action, definitions, target, Some(advancement), criterion) is Ok,
    ensures
        ({
            let grants = command_outcome(
                action,
                definitions,
                target,
                Some(advancement),
                criterion,
            ).unwrap().0;
            &&& forall|i: int| 0 <= i < grants.len() ==> (#[trigger] grants[i]).0 == advancement
            &&& lookup_advancement(definitions, advancement) is None ==> grants.len() == 0
        }),
{
}

/// Every accepted command line is exactly the words of what it is read as: reading is
/// the inverse of writing the words, so no other word can stand in for a literal.
pub proof fn law_command_syntax_is_exact(words: Seq<Seq<char>>)
    requires
        command_syntax(words) is Some,
    ensures
        ({
            let (action, player, advancement, criterion) = command_syntax(words).unwrap();
            words == command_words(
                action,
                player,
                advancement.unwrap_or(Seq::empty()),
                criterion.unwrap_or(Seq::empty()),
            )
        }),
{
    reveal_strlit("grant");
    reveal_strlit("revoke");
    assert("grant"@ != "revoke"@) by {
        assert("grant"@.len() != "revoke"@.len());
    }
    let (action, player, advancement, criterion) = command_syntax(words).unwrap();
    let w = command_words(
        action,
        player,
        advancement.unwrap_or(Seq::empty()),
        criterion.unwrap_or(Seq::empty()),
    );
    assert(words =~= w);
}

} // verus!
