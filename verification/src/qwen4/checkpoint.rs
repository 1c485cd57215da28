//! What a checkpoint must declare before it is loaded.

use vstd::prelude::*;
use crate::json::{json_of_text, parse_json, Json, JsonTree};
use crate::qwen4::config::Qwen4Config;
use crate::text::{
    joined, quoted, quoted_text, same_text, signed_decimal, signed_decimal_text,
};

verus! {

/// Why a configuration is refused. Names and values are texts of type `T`.
#[derive(Debug)]
pub enum ConfigProblem<T> {
    Malformed,
    NotObject,
    MissingModelType,
    UnsupportedArchitecture(T),
    MissingTextConfig,
    TextConfigNotObject,
    MissingQuantization,
    QuantizationNotObject,
    OverrideNotObject(T),
    GroupSizeNotInteger(T),
    BitsNotInteger(T),
    ModeNotText(T),
    GroupSizeNotPositive(T),
    UnsupportedBits(T, i64),
    UnsupportedMode(T, T),
    UnsupportedTextArchitecture(T),
    Backbone,
    Experts,
    HyperConnections,
    Gating,
}

pub type ConfigError = ConfigProblem<String>;

impl View for ConfigProblem<String> {
    type V = ConfigProblem<Seq<char>>;

    open spec fn view(&self) -> ConfigProblem<Seq<char>> {
        match *self {
            ConfigProblem::Malformed => ConfigProblem::Malformed,
            ConfigProblem::NotObject => ConfigProblem::NotObject,
            ConfigProblem::MissingModelType => ConfigProblem::MissingModelType,
            ConfigProblem::UnsupportedArchitecture(name) => ConfigProblem::UnsupportedArchitecture(
                name@,
            ),
            ConfigProblem::MissingTextConfig => ConfigProblem::MissingTextConfig,
            ConfigProblem::TextConfigNotObject => ConfigProblem::TextConfigNotObject,
            ConfigProblem::MissingQuantization => ConfigProblem::MissingQuantization,
            ConfigProblem::QuantizationNotObject => ConfigProblem::QuantizationNotObject,
            ConfigProblem::OverrideNotObject(name) => ConfigProblem::OverrideNotObject(name@),
            ConfigProblem::GroupSizeNotInteger(name) => ConfigProblem::GroupSizeNotInteger(name@),
            ConfigProblem::BitsNotInteger(name) => ConfigProblem::BitsNotInteger(name@),
            ConfigProblem::ModeNotText(name) => ConfigProblem::ModeNotText(name@),
            ConfigProblem::GroupSizeNotPositive(name) => ConfigProblem::GroupSizeNotPositive(name@),
            ConfigProblem::UnsupportedBits(name, bits) => ConfigProblem::UnsupportedBits(
                name@,
                bits,
            ),
            ConfigProblem::UnsupportedMode(name, mode) => ConfigProblem::UnsupportedMode(
                name@,
                mode@,
            ),
            ConfigProblem::UnsupportedTextArchitecture(name) =>
                ConfigProblem::UnsupportedTextArchitecture(name@),
            ConfigProblem::Backbone => ConfigProblem::Backbone,
            ConfigProblem::Experts => ConfigProblem::Experts,
            ConfigProblem::HyperConnections => ConfigProblem::HyperConnections,
            ConfigProblem::Gating => ConfigProblem::Gating,
        }
    }
}

/// What a refusal of the configuration at `path` says.
pub open spec fn config_message(problem: ConfigProblem<Seq<char>>, path: Seq<char>) -> Seq<char> {
    match problem {
        ConfigProblem::Malformed => "failed to parse "@ + path,
        ConfigProblem::NotObject => path + " must contain a JSON object"@,
        ConfigProblem::MissingModelType => path + " is missing string model_type"@,
        ConfigProblem::UnsupportedArchitecture(name) => "unsupported architecture "@ + quoted(name)
            + " in "@ + path + "; expected \"qwen4_exp\""@,
        ConfigProblem::MissingTextConfig => path + " is missing text_config"@,
        ConfigProblem::TextConfigNotObject => "text_config in "@ + path
            + " must contain a JSON object"@,
        ConfigProblem::MissingQuantization => path + " is missing quantization metadata"@,
        ConfigProblem::QuantizationNotObject => "quantization in "@ + path
            + " must contain a JSON object"@,
        ConfigProblem::OverrideNotObject(name) => "quantization override "@ + quoted(name)
            + " in "@ + path + " must contain an object"@,
        ConfigProblem::GroupSizeNotInteger(name) => name + ".group_size in "@ + path
            + " must be an integer"@,
        ConfigProblem::BitsNotInteger(name) => name + ".bits in "@ + path + " must be an integer"@,
        ConfigProblem::ModeNotText(name) => name + ".mode in "@ + path + " must be a string"@,
        ConfigProblem::GroupSizeNotPositive(name) => name + ".group_size in "@ + path
            + " must be positive"@,
        ConfigProblem::UnsupportedBits(name, bits) => name + ".bits in "@ + path
            + " is unsupported: "@ + signed_decimal(bits as int),
        ConfigProblem::UnsupportedMode(name, mode) => name + ".mode in "@ + path
            + " is unsupported: "@ + quoted(mode),
        ConfigProblem::UnsupportedTextArchitecture(name) => "unsupported text architecture "@
            + quoted(name) + " in "@ + path,
        ConfigProblem::Backbone => "checkpoint "@ + path
            + " does not match the fixed Qwen3.8 Flash Next text backbone"@,
        ConfigProblem::Experts => "checkpoint "@ + path
            + " does not match the REAP-288 expert layout"@,
        ConfigProblem::HyperConnections => "checkpoint "@ + path
            + " does not match the fixed Qwen4 hyper-connection/PLE layout"@,
        ConfigProblem::Gating => "checkpoint "@ + path
            + " has incompatible Qwen4 gating or EOS metadata"@,
    }
}

impl ConfigProblem<String> {
    /// What the refusal of the configuration at `path` says.
    pub fn message(&self, path: &str) -> (text: String)
        ensures
            text@ == config_message(self@, path@),
    {
        let text: String = match self {
            ConfigProblem::Malformed => joined("failed to parse ", path, "", "", ""),
            ConfigProblem::NotObject => joined(path, " must contain a JSON object", "", "", ""),
            ConfigProblem::MissingModelType => joined(
                path,
                " is missing string model_type",
                "",
                "",
                "",
            ),
            ConfigProblem::UnsupportedArchitecture(name) => joined(
                "unsupported architecture ",
                quoted_text(name.as_str()).as_str(),
                " in ",
                path,
                "; expected \"qwen4_exp\"",
            ),
            ConfigProblem::MissingTextConfig => joined(path, " is missing text_config", "", "", ""),
            ConfigProblem::TextConfigNotObject => joined(
                "text_config in ",
                path,
                " must contain a JSON object",
                "",
                "",
            ),
            ConfigProblem::MissingQuantization => joined(
                path,
                " is missing quantization metadata",
                "",
                "",
                "",
            ),
            ConfigProblem::QuantizationNotObject => joined(
                "quantization in ",
                path,
                " must contain a JSON object",
                "",
                "",
            ),
            ConfigProblem::OverrideNotObject(name) => joined(
                "quantization override ",
                quoted_text(name.as_str()).as_str(),
                " in ",
                path,
                " must contain an object",
            ),
            ConfigProblem::GroupSizeNotInteger(name) => joined(
                name.as_str(),
                ".group_size in ",
                path,
                " must be an integer",
                "",
            ),
            ConfigProblem::BitsNotInteger(name) => joined(
                name.as_str(),
                ".bits in ",
                path,
                " must be an integer",
                "",
            ),
            ConfigProblem::ModeNotText(name) => joined(
                name.as_str(),
                ".mode in ",
                path,
                " must be a string",
                "",
            ),
            ConfigProblem::GroupSizeNotPositive(name) => joined(
                name.as_str(),
                ".group_size in ",
                path,
                " must be positive",
                "",
            ),
            ConfigProblem::UnsupportedBits(name, bits) => joined(
                name.as_str(),
                ".bits in ",
                path,
                " is unsupported: ",
                signed_decimal_text(*bits).as_str(),
            ),
            ConfigProblem::UnsupportedMode(name, mode) => joined(
                name.as_str(),
                ".mode in ",
                path,
                " is unsupported: ",
                quoted_text(mode.as_str()).as_str(),
            ),
            ConfigProblem::UnsupportedTextArchitecture(name) => joined(
                "unsupported text architecture ",
                quoted_text(name.as_str()).as_str(),
                " in ",
                path,
                "",
            ),
            ConfigProblem::Backbone => joined(
                "checkpoint ",
                path,
                " does not match the fixed Qwen3.8 Flash Next text backbone",
                "",
                "",
            ),
            ConfigProblem::Experts => joined(
                "checkpoint ",
                path,
                " does not match the REAP-288 expert layout",
                "",
                "",
            ),
            ConfigProblem::HyperConnections => joined(
                "checkpoint ",
                path,
                " does not match the fixed Qwen4 hyper-connection/PLE layout",
                "",
                "",
            ),
            ConfigProblem::Gating => joined(
                "checkpoint ",
                path,
                " has incompatible Qwen4 gating or EOS metadata",
                "",
                "",
            ),
        };
        proof {
            reveal_strlit("");
            assert(""@ == Seq::<char>::empty());
            assert(text@ == config_message(self@, path@));
        }
        text
    }
}

/// What is wrong with the group size, bits or mode of a quantisation entry called `name`, first
/// problem first.
pub open spec fn entry_problem(entry: JsonTree, name: Seq<char>) -> Option<
    ConfigProblem<Seq<char>>,
> {
    match integer_entry(entry, "group_size"@) {
        None => Some(ConfigProblem::GroupSizeNotInteger(name)),
        Some(group_size) => match integer_entry(entry, "bits"@) {
            None => Some(ConfigProblem::BitsNotInteger(name)),
            Some(bits) => match text_entry(entry, "mode"@) {
                None => Some(ConfigProblem::ModeNotText(name)),
                Some(mode) => if !(0 < group_size <= i32::MAX) {
                    Some(ConfigProblem::GroupSizeNotPositive(name))
                } else if !supported_bits(bits) {
                    Some(ConfigProblem::UnsupportedBits(name, bits))
                } else if mode != "affine"@ {
                    Some(ConfigProblem::UnsupportedMode(name, mode))
                } else {
                    None
                },
            },
        },
    }
}

pub open spec fn supported_bits(bits: i64) -> bool {
    bits == 2 || bits == 3 || bits == 4 || bits == 5 || bits == 6 || bits == 8
}

/// The integer under `key` of an object.
pub open spec fn integer_entry(object: JsonTree, key: Seq<char>) -> Option<i64> {
    match object.get(key) {
        Some(value) => value.integer(),
        None => None,
    }
}

/// The text under `key` of an object.
pub open spec fn text_entry(object: JsonTree, key: Seq<char>) -> Option<Seq<char>> {
    match object.get(key) {
        Some(value) => value.text(),
        None => None,
    }
}

fn integer_under(object: &Json, key: &str) -> (value: Option<i64>)
    ensures
        value == integer_entry(object.tree(), key@),
{
    match object.get(key) {
        Some(value) => value.as_i64(),
        None => None,
    }
}

fn text_under<'a>(object: &'a Json, key: &str) -> (value: Option<&'a str>)
    ensures
        match value {
            Some(value) => text_entry(object.tree(), key@) == Some(value@),
            None => text_entry(object.tree(), key@) is None,
        },
{
    match object.get(key) {
        Some(value) => value.as_str(),
        None => None,
    }
}

/// Checks group size, bits and mode of a quantisation entry.
pub fn validate_quantization_entry(entry: &Json, name: &str) -> (result: Result<(), ConfigError>)
    ensures
        match result {
            Ok(_) => entry_problem(entry.tree(), name@) is None,
            Err(error) => entry_problem(entry.tree(), name@) == Some(error@),
        },
{
    let group_size: i64 = match integer_under(entry, "group_size") {
        Some(value) => value,
        None => {
            return Err(ConfigProblem::GroupSizeNotInteger(name.to_owned()));
        },
    };
    let bits: i64 = match integer_under(entry, "bits") {
        Some(value) => value,
        None => {
            return Err(ConfigProblem::BitsNotInteger(name.to_owned()));
        },
    };
    let mode: &str = match text_under(entry, "mode") {
        Some(value) => value,
        None => {
            return Err(ConfigProblem::ModeNotText(name.to_owned()));
        },
    };
    if !(0 < group_size && group_size <= i32::MAX as i64) {
        return Err(ConfigProblem::GroupSizeNotPositive(name.to_owned()));
    }
    if !(bits == 2 || bits == 3 || bits == 4 || bits == 5 || bits == 6 || bits == 8) {
        return Err(ConfigProblem::UnsupportedBits(name.to_owned(), bits));
    }
    if !same_text(mode, "affine") {
        return Err(ConfigProblem::UnsupportedMode(name.to_owned(), mode.to_owned()));
    }
    Ok(())
}

/// Whether a key of a quantisation belongs to its default rather than to an override.
pub open spec fn default_key(name: Seq<char>) -> bool {
    name == "group_size"@ || name == "bits"@ || name == "mode"@
}

/// The first problem among the overrides of a quantisation.
pub open spec fn overrides_problem(entries: Seq<(Seq<char>, JsonTree)>) -> Option<
    ConfigProblem<Seq<char>>,
>
    decreases entries.len(),
{
    if entries.len() == 0 {
        None
    } else {
        match overrides_problem(entries.drop_last()) {
            Some(problem) => Some(problem),
            None => override_problem(entries.last().0, entries.last().1),
        }
    }
}

/// The problem of one override.
pub open spec fn override_problem(name: Seq<char>, value: JsonTree) -> Option<
    ConfigProblem<Seq<char>>,
> {
    if default_key(name) {
        None
    } else if value !is Object {
        Some(ConfigProblem::OverrideNotObject(name))
    } else {
        entry_problem(value, name)
    }
}

/// The first problem of a quantisation.
pub open spec fn quantization_problem(value: JsonTree) -> Option<ConfigProblem<Seq<char>>> {
    match value {
        JsonTree::Object(entries) => match entry_problem(value, "quantization"@) {
            Some(problem) => Some(problem),
            None => overrides_problem(entries),
        },
        _ => Some(ConfigProblem::QuantizationNotObject),
    }
}

/// Once a prefix of the entries has a problem, all of them have the same first problem.
proof fn first_problem_stays(entries: Seq<(Seq<char>, JsonTree)>, count: int)
    requires
        0 <= count <= entries.len(),
        overrides_problem(entries.take(count)) is Some,
    ensures
        overrides_problem(entries) == overrides_problem(entries.take(count)),
    decreases entries.len() - count,
{
    if count == entries.len() {
        assert(entries.take(count) == entries);
    } else {
        assert(entries.take(count + 1).drop_last() == entries.take(count));
        first_problem_stays(entries, count + 1);
    }
}

/// Checks a quantisation: its default and every override.
pub fn validate_quantization(value: &Json) -> (result: Result<(), ConfigError>)
    ensures
        match result {
            Ok(_) => quantization_problem(value.tree()) is None,
            Err(error) => quantization_problem(value.tree()) == Some(error@),
        },
{
    let entries: &Vec<(String, Json)> = match value {
        Json::Object(entries) => entries,
        _ => {
            return Err(ConfigProblem::QuantizationNotObject);
        },
    };
    validate_quantization_entry(value, "quantization")?;
    let ghost tree = value.tree()->Object_0;
    let mut index: usize = 0;
    while index < entries.len()
        invariant
            index <= entries@.len(),
            *value == Json::Object(*entries),
            tree == value.tree()->Object_0,
            tree.len() == entries@.len(),
            entry_problem(value.tree(), "quantization"@) is None,
            overrides_problem(tree.take(index as int)) is None,
        decreases entries@.len() - index,
    {
        let name: &str = entries[index].0.as_str();
        let entry: &Json = &entries[index].1;
        proof {
            assert(tree[index as int] == (name@, entry.tree()));
            assert(tree.take(index + 1).drop_last() == tree.take(index as int));
            assert(tree.take(index + 1).last() == tree[index as int]);
            if override_problem(name@, entry.tree()) is Some {
                first_problem_stays(tree, index + 1);
            }
        }
        if !(same_text(name, "group_size") || same_text(name, "bits") || same_text(name, "mode")) {
            if !entry.is_object() {
                return Err(ConfigProblem::OverrideNotObject(name.to_owned()));
            }
            validate_quantization_entry(entry, name)?;
        }
        index = index + 1;
    }
    assert(tree.take(index as int) == tree);
    Ok(())
}

/// The key under which a configuration keeps its quantisation.
#[derive(Debug, Clone, Copy, PartialEq, Eq, Structural)]
pub enum QuantizationKey {
    Quantization,
    QuantizationConfig,
}

/// The quantisation of a configuration and its key.
pub open spec fn quantization_entry(root: JsonTree) -> Option<(QuantizationKey, JsonTree)> {
    match root.get("quantization"@) {
        Some(value) => Some((QuantizationKey::Quantization, value)),
        None => match root.get("quantization_config"@) {
            Some(value) => Some((QuantizationKey::QuantizationConfig, value)),
            None => None,
        },
    }
}

/// What the root of a configuration says: where its quantisation is, or its first problem.
pub open spec fn root_verdict(root: JsonTree) -> Result<
    QuantizationKey,
    ConfigProblem<Seq<char>>,
> {
    if root !is Object {
        Err(ConfigProblem::NotObject)
    } else {
        match text_entry(root, "model_type"@) {
            None => Err(ConfigProblem::MissingModelType),
            Some(model_type) => if model_type != "qwen4_exp"@ {
                Err(ConfigProblem::UnsupportedArchitecture(model_type))
            } else {
                match root.get("text_config"@) {
                    None => Err(ConfigProblem::MissingTextConfig),
                    Some(text_config) => if text_config !is Object {
                        Err(ConfigProblem::TextConfigNotObject)
                    } else {
                        match quantization_entry(root) {
                            None => Err(ConfigProblem::MissingQuantization),
                            Some((key, value)) => match quantization_problem(value) {
                                Some(problem) => Err(problem),
                                None => Ok(key),
                            },
                        }
                    },
                }
            },
        }
    }
}

/// Checks the root of a configuration and says under which key its quantisation is.
pub fn check_root(root: &Json) -> (result: Result<QuantizationKey, ConfigError>)
    ensures
        match result {
            Ok(key) => root_verdict(root.tree()) == Ok::<QuantizationKey, ConfigProblem<Seq<char>>>(
                key,
            ),
            Err(error) => root_verdict(root.tree()) == Err::<
                QuantizationKey,
                ConfigProblem<Seq<char>>,
            >(error@),
        },
{
    if !root.is_object() {
        return Err(ConfigProblem::NotObject);
    }
    let model_type: &str = match text_under(root, "model_type") {
        Some(model_type) => model_type,
        None => {
            return Err(ConfigProblem::MissingModelType);
        },
    };
    if !same_text(model_type, "qwen4_exp") {
        return Err(ConfigProblem::UnsupportedArchitecture(model_type.to_owned()));
    }
    match root.get("text_config") {
        None => {
            return Err(ConfigProblem::MissingTextConfig);
        },
        Some(text_config) => {
            if !text_config.is_object() {
                return Err(ConfigProblem::TextConfigNotObject);
            }
        },
    }
    match root.get("quantization") {
        Some(value) => {
            validate_quantization(value)?;
            Ok(QuantizationKey::Quantization)
        },
        None => match root.get("quantization_config") {
            Some(value) => {
                validate_quantization(value)?;
                Ok(QuantizationKey::QuantizationConfig)
            },
            None => Err(ConfigProblem::MissingQuantization),
        },
    }
}

/// Reads a configuration, checks its root and says under which key its quantisation is.
pub fn parse_root(text: &str) -> (result: Result<QuantizationKey, ConfigError>)
    ensures
        match json_of_text(text@) {
            Some(root) => match result {
                Ok(key) => root_verdict(root) == Ok::<QuantizationKey, ConfigProblem<Seq<char>>>(
                    key,
                ),
                Err(error) => root_verdict(root) == Err::<
                    QuantizationKey,
                    ConfigProblem<Seq<char>>,
                >(error@),
            },
            None => result matches Err(error) && error@ == ConfigProblem::<Seq<char>>::Malformed,
        },
{
    match parse_json(text) {
        Some(root) => check_root(&root),
        None => Err(ConfigProblem::Malformed),
    }
}

impl Qwen4Config {
    pub open spec fn backbone_matches(&self) -> bool {
        &&& self.hidden_size == 2560
        &&& self.num_hidden_layers == 48
        &&& self.num_attention_heads == 24
        &&& self.num_key_value_heads == 2
        &&& self.head_width() == 256
        &&& self.linear_num_key_heads == 16
        &&& self.linear_num_value_heads == 48
        &&& self.linear_key_head_dim == 128
        &&& self.linear_value_head_dim == 128
        &&& self.vocab_size == 248320
    }

    pub open spec fn experts_match(&self) -> bool {
        &&& self.num_experts == 288
        &&& self.num_experts_per_tok == 10
        &&& self.moe_intermediate_size == 640
        &&& self.shared_expert_intermediate_size == 640
    }

    pub open spec fn hyper_connections_match(&self) -> bool {
        &&& self.hc_count == 4
        &&& self.hc_lowrank == 320
        &&& self.layer_types@.len() == self.num_hidden_layers
        &&& self.ple_layer_ids@ == seq![2usize]
        &&& self.ple_embed_dim == 2560
        &&& self.ngram_size == 3
        &&& self.heads_per_ngram == 8
        &&& self.make_ngram_vocab_size_divisible_by == 128
        &&& self.split_ngram_parts == 128
    }

    /// The first problem of a parsed configuration.
    pub open spec fn layout_problem(&self) -> Option<ConfigProblem<Seq<char>>> {
        if self.model_type@ != "qwen4_exp_text"@ {
            Some(ConfigProblem::UnsupportedTextArchitecture(self.model_type@))
        } else if !self.backbone_matches() {
            Some(ConfigProblem::Backbone)
        } else if !self.experts_match() {
            Some(ConfigProblem::Experts)
        } else if !self.hyper_connections_match() {
            Some(ConfigProblem::HyperConnections)
        } else if !(self.output_gate_type@ == "sigmoid"@ && self.eos_token_id is Some) {
            Some(ConfigProblem::Gating)
        } else {
            None
        }
    }

    /// Checks that the configuration is that of the one supported model.
    pub fn check_layout(&self) -> (result: Result<(), ConfigError>)
        ensures
            match result {
                Ok(_) => self.layout_problem() is None,
                Err(error) => self.layout_problem() == Some(error@),
            },
    {
        if !same_text(self.model_type.as_str(), "qwen4_exp_text") {
            return Err(ConfigProblem::UnsupportedTextArchitecture(self.model_type.clone()));
        }
        if !(self.hidden_size == 2560 && self.num_hidden_layers == 48 && self.num_attention_heads
            == 24 && self.num_key_value_heads == 2 && self.head_dim_resolved() == 256
            && self.linear_num_key_heads == 16 && self.linear_num_value_heads == 48
            && self.linear_key_head_dim == 128 && self.linear_value_head_dim == 128
            && self.vocab_size == 248320) {
            return Err(ConfigProblem::Backbone);
        }
        if !(self.num_experts == 288 && self.num_experts_per_tok == 10
            && self.moe_intermediate_size == 640 && self.shared_expert_intermediate_size == 640) {
            return Err(ConfigProblem::Experts);
        }
        assert(self.ple_layer_ids@.len() == 1 && self.ple_layer_ids@[0] == 2
            ==> self.ple_layer_ids@ == seq![2usize]);
        if !(self.hc_count == 4 && self.hc_lowrank == 320 && self.layer_types.len()
            == self.num_hidden_layers && self.ple_layer_ids.len() == 1 && self.ple_layer_ids[0] == 2
            && self.ple_embed_dim == 2560 && self.ngram_size == 3 && self.heads_per_ngram == 8
            && self.make_ngram_vocab_size_divisible_by == 128 && self.split_ngram_parts == 128) {
            return Err(ConfigProblem::HyperConnections);
        }
        if !(same_text(self.output_gate_type.as_str(), "sigmoid") && self.eos_token_id.is_some()) {
            return Err(ConfigProblem::Gating);
        }
        Ok(())
    }
}

/// A configuration that passes is the fixed one: its tables and layers have fixed sizes.
pub proof fn accepted_layout_is_fixed(config: Qwen4Config)
    requires
        config.layout_problem() is None,
    ensures
        config.num_hidden_layers == config.layer_types@.len() == 48,
        config.head_width() * config.num_attention_heads == 6144,
        (config.ngram_size - 1) * config.heads_per_ngram == 16,
        config.ple_embed_dim / 16 == 160,
        config.eos_token_id is Some,
{
}

} // verus!
