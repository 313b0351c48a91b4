//! The board agents: a board-in agent writes what it takes in to a board,
//! and the board-out agents of that board send it on.

use crate::askit::{ASKit, KitModel};
use crate::definition::{AgentConfigEntry, AgentDefinition, ConfigEntryModel, DefinitionModel};
use crate::text::to_string;
use crate::value::{AgentValue, ValueModel};
use vstd::prelude::*;

verus! {

broadcast use vstd::string::group_string_axioms;

/// The configuration key of a board agent's board name.
pub open spec fn board_name_key() -> Seq<char> {
    "$board"@
}

/// The model of the board-in agent's definition.
pub open spec fn board_in_model() -> DefinitionModel {
    DefinitionModel {
        kind: "Board"@,
        name: "core_board_in"@,
        title: Some("Board In"@),
        description: None,
        category: Some("Core"@),
        inputs: Some(seq!["*"@]),
        outputs: None,
        default_configs: Some(
            seq![
                (
                    board_name_key(),
                    ConfigEntryModel {
                        value: ValueModel::Str(""@),
                        type_: Some("string"@),
                        title: Some("Board Name"@),
                        description: Some("* = source kind"@),
                        hidden: false,
                    },
                ),
            ],
        ),
        global_configs: None,
        display_configs: None,
        native_thread: false,
    }
}

/// The model of the board-out agent's definition.
pub open spec fn board_out_model() -> DefinitionModel {
    DefinitionModel {
        kind: "Board"@,
        name: "core_board_out"@,
        title: Some("Board Out"@),
        description: None,
        category: Some("Core"@),
        inputs: None,
        outputs: Some(seq!["*"@]),
        default_configs: Some(
            seq![
                (
                    board_name_key(),
                    ConfigEntryModel {
                        value: ValueModel::Str(""@),
                        type_: Some("string"@),
                        title: Some("Board Name"@),
                        description: None,
                        hidden: false,
                    },
                ),
            ],
        ),
        global_configs: None,
        display_configs: None,
        native_thread: false,
    }
}

/// The definition of the board-in agent.
pub fn board_in_definition() -> (r: AgentDefinition)
    ensures
        r@ == board_in_model(),
{
    let entry = AgentConfigEntry::new(AgentValue::string(""), "string").with_title("Board Name").with_description(
        "* = source kind",
    );
    let mut inputs: Vec<&str> = Vec::new();
    inputs.push("*");
    let r = AgentDefinition::new("Board", "core_board_in").with_title("Board In").with_category("Core").with_inputs(
        inputs,
    ).push_default_config_entry(to_string("$board"), entry);
    assert(r@.inputs->Some_0 =~= seq!["*"@]);
    assert(r@.default_configs->Some_0 =~= board_in_model().default_configs->Some_0);
    r
}

/// The definition of the board-out agent.
pub fn board_out_definition() -> (r: AgentDefinition)
    ensures
        r@ == board_out_model(),
{
    let entry = AgentConfigEntry::new(AgentValue::string(""), "string").with_title("Board Name");
    let mut outputs: Vec<&str> = Vec::new();
    outputs.push("*");
    let r = AgentDefinition::new("Board", "core_board_out").with_title("Board Out").with_category("Core").with_outputs(
        outputs,
    ).push_default_config_entry(to_string("$board"), entry);
    assert(r@.outputs->Some_0 =~= seq!["*"@]);
    assert(r@.default_configs->Some_0 =~= board_out_model().default_configs->Some_0);
    r
}

/// Registers the board agents.
pub fn register_agents(askit: &mut ASKit)
    ensures
        final(askit)@ == (KitModel {
            defs: old(askit)@.defs.insert("core_board_in"@, board_in_model()).insert("core_board_out"@, board_out_model()),
            ..old(askit)@
        }),
{
    askit.register_agent(board_in_definition());
    askit.register_agent(board_out_definition());
}

} // verus!
