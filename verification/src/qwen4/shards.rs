//! The shard index of a checkpoint.

use vstd::prelude::*;
use crate::json::{json_of_text, parse_json, Json, JsonTree};
use crate::text::{chars_of, joined, quoted, quoted_text, same_text};

verus! {

/// Why a shard index is refused. Names are texts of type `T`.
#[derive(Debug)]
pub enum ShardProblem<T> {
    Malformed,
    MissingWeightMap,
    EmptyWeightMap,
    /// The shard of this tensor is no text.
    NotText(T),
    /// A shard must be a single file name.
    InvalidPath(T),
    /// The shard file is absent.
    Missing(T),
}

pub type ShardError = ShardProblem<String>;

impl View for ShardProblem<String> {
    type V = ShardProblem<Seq<char>>;

    open spec fn view(&self) -> ShardProblem<Seq<char>> {
        match *self {
            ShardProblem::Malformed => ShardProblem::Malformed,
            ShardProblem::MissingWeightMap => ShardProblem::MissingWeightMap,
            ShardProblem::EmptyWeightMap => ShardProblem::EmptyWeightMap,
            ShardProblem::NotText(name) => ShardProblem::NotText(name@),
            ShardProblem::InvalidPath(name) => ShardProblem::InvalidPath(name@),
            ShardProblem::Missing(name) => ShardProblem::Missing(name@),
        }
    }
}

/// What a refusal says. The path is that of the index, or of the missing shard.
pub open spec fn shard_message(problem: ShardProblem<Seq<char>>, path: Seq<char>) -> Seq<char> {
    match problem {
        ShardProblem::Malformed => "failed to parse "@ + path,
        ShardProblem::MissingWeightMap => path + " is missing object weight_map"@,
        ShardProblem::EmptyWeightMap => path + " contains an empty weight_map"@,
        ShardProblem::NotText(name) => "shard for tensor "@ + quoted(name) + " in "@ + path
            + " must be a string"@,
        ShardProblem::InvalidPath(name) => "invalid shard path "@ + quoted(name) + " in "@ + path,
        ShardProblem::Missing(_) => "missing checkpoint shard "@ + path,
    }
}

impl ShardProblem<String> {
    /// What the refusal says. The path is that of the index, or of the missing shard.
    pub fn message(&self, path: &str) -> (text: String)
        ensures
            text@ == shard_message(self@, path@),
    {
        let text: String = match self {
            ShardProblem::Malformed => joined("failed to parse ", path, "", "", ""),
            ShardProblem::MissingWeightMap => joined(
                path,
                " is missing object weight_map",
                "",
                "",
                "",
            ),
            ShardProblem::EmptyWeightMap => joined(path, " contains an empty weight_map", "", "", ""),
            ShardProblem::NotText(name) => joined(
                "shard for tensor ",
                quoted_text(name.as_str()).as_str(),
                " in ",
                path,
                " must be a string",
            ),
            ShardProblem::InvalidPath(name) => joined(
                "invalid shard path ",
                quoted_text(name.as_str()).as_str(),
                " in ",
                path,
                "",
            ),
            ShardProblem::Missing(_) => joined("missing checkpoint shard ", path, "", "", ""),
        };
        proof {
            reveal_strlit("");
            assert(""@ == Seq::<char>::empty());
            assert(text@ == shard_message(self@, path@));
        }
        text
    }
}

/// The parts of a path between slashes.
pub open spec fn path_parts(path: Seq<char>) -> Seq<Seq<char>>
    decreases path.len(),
{
    if path.len() == 0 {
        seq![Seq::empty()]
    } else {
        let parts = path_parts(path.drop_last());
        if path.last() == '/' {
            parts.push(Seq::empty())
        } else {
            parts.update(parts.len() - 1, parts.last().push(path.last()))
        }
    }
}

/// How many of these parts name something: empty parts do not, nor does a lone dot that is not at
/// the front.
pub open spec fn named_parts(parts: Seq<Seq<char>>) -> nat
    decreases parts.len(),
{
    if parts.len() == 0 {
        0
    } else {
        named_parts(parts.drop_last()) + if names_something(parts.last(), parts.len() == 1) {
            1nat
        } else {
            0nat
        }
    }
}

pub open spec fn names_something(part: Seq<char>, first: bool) -> bool {
    part.len() > 0 && (first || part != seq!['.'])
}

/// Components of a path with slashes: the root, if the path is absolute, and every named part.
pub open spec fn path_components(path: Seq<char>) -> nat {
    named_parts(path_parts(path)) + if path.len() > 0 && path[0] == '/' {
        1nat
    } else {
        0nat
    }
}

proof fn path_has_parts(path: Seq<char>)
    ensures
        path_parts(path).len() > 0,
    decreases path.len(),
{
    if path.len() > 0 {
        path_has_parts(path.drop_last());
    }
}

/// Counts to two.
pub open spec fn up_to_two(count: nat) -> nat {
    if count < 2 {
        count
    } else {
        2
    }
}

/// Whether a path with slashes has exactly one component.
pub fn is_single_component(path: &str) -> (single: bool)
    ensures
        single == (path_components(path@) == 1),
{
    let chars: Vec<char> = chars_of(path);
    let mut closed: usize = 0;
    let mut blank: bool = true;
    let mut lone_dot: bool = false;
    let mut first: bool = true;
    let mut index: usize = 0;
    proof {
        assert(path_parts(chars@.take(0)).drop_last() == Seq::<Seq<char>>::empty());
        assert(Seq::<char>::empty().len() != seq!['.'].len());
    }
    while index < chars.len()
        invariant
            chars@ == path@,
            index <= chars@.len(),
            closed == up_to_two(named_parts(path_parts(chars@.take(index as int)).drop_last())),
            blank == (path_parts(chars@.take(index as int)).last().len() == 0),
            lone_dot == (path_parts(chars@.take(index as int)).last() == seq!['.']),
            first == (path_parts(chars@.take(index as int)).len() == 1),
        decreases chars@.len() - index,
    {
        let ghost before = chars@.take(index as int);
        let ghost after = chars@.take(index + 1);
        let ghost parts = path_parts(before);
        proof {
            path_has_parts(before);
            assert(after.drop_last() == before);
            assert(after.last() == chars@[index as int]);
        }
        if chars[index] == '/' {
            if !blank && (first || !lone_dot) && closed < 2 {
                closed = closed + 1;
            }
            proof {
                assert(path_parts(after).drop_last() == parts);
                assert(path_parts(after).last() == Seq::<char>::empty());
                assert(Seq::<char>::empty().len() != seq!['.'].len());
            }
            blank = true;
            lone_dot = false;
            first = false;
        } else {
            proof {
                assert(path_parts(after).drop_last() == parts.drop_last());
                assert(path_parts(after).last() == parts.last().push(chars@[index as int]));
                if blank {
                    assert(parts.last().push(chars@[index as int]) == seq![chars@[index as int]]);
                    assert(seq![chars@[index as int]][0] == chars@[index as int]);
                    assert(seq!['.'][0] == '.');
                } else {
                    assert(parts.last().push(chars@[index as int]).len() != seq!['.'].len());
                }
            }
            lone_dot = blank && chars[index] == '.';
            blank = false;
        }
        index = index + 1;
    }
    assert(chars@.take(index as int) == path@);
    proof {
        path_has_parts(path@);
    }
    let last: usize = if !blank && (first || !lone_dot) {
        1
    } else {
        0
    };
    let root: usize = if chars.len() > 0 && chars[0] == '/' {
        1
    } else {
        0
    };
    closed + last + root == 1
}

/// Order of texts, character by character.
pub open spec fn precedes(left: Seq<char>, right: Seq<char>) -> bool
    decreases right.len(),
{
    if right.len() == 0 {
        false
    } else if left.len() == 0 {
        true
    } else if left[0] != right[0] {
        (left[0] as int) < (right[0] as int)
    } else {
        precedes(left.skip(1), right.skip(1))
    }
}

/// Texts that are different stand in one order or the other.
pub proof fn texts_are_ordered(left: Seq<char>, right: Seq<char>)
    ensures
        left == right ==> !precedes(left, right),
        left != right ==> (precedes(left, right) <==> !precedes(right, left)),
    decreases right.len(),
{
    if left.len() > 0 && right.len() > 0 && left[0] == right[0] {
        texts_are_ordered(left.skip(1), right.skip(1));
        if left.skip(1) == right.skip(1) {
            assert(left == seq![left[0]] + left.skip(1));
            assert(right == seq![right[0]] + right.skip(1));
        }
    } else if left.len() == 0 && right.len() == 0 {
        assert(left == right);
    }
}

/// The order of texts is transitive.
pub proof fn text_order_is_transitive(left: Seq<char>, middle: Seq<char>, right: Seq<char>)
    requires
        precedes(left, middle),
        precedes(middle, right),
    ensures
        precedes(left, right),
    decreases right.len(),
{
    if left.len() > 0 && left[0] == middle[0] && middle[0] == right[0] {
        text_order_is_transitive(left.skip(1), middle.skip(1), right.skip(1));
    }
}

/// Whether `left` stands before `right`.
fn text_precedes(left: &str, right: &str) -> (before: bool)
    ensures
        before == precedes(left@, right@),
{
    let a: Vec<char> = chars_of(left);
    let b: Vec<char> = chars_of(right);
    let mut index: usize = 0;
    assert(a@.skip(0) == a@ && b@.skip(0) == b@);
    while index < a.len() && index < b.len()
        invariant
            a@ == left@,
            b@ == right@,
            index <= a@.len(),
            index <= b@.len(),
            precedes(left@, right@) == precedes(a@.skip(index as int), b@.skip(index as int)),
        decreases a@.len() - index,
    {
        proof {
            assert(a@.skip(index as int).skip(1) == a@.skip(index + 1));
            assert(b@.skip(index as int).skip(1) == b@.skip(index + 1));
            assert(a@.skip(index as int)[0] == a@[index as int]);
            assert(b@.skip(index as int)[0] == b@[index as int]);
        }
        if a[index] != b[index] {
            return a[index] < b[index];
        }
        index = index + 1;
    }
    index < b.len()
}

/// Whether names stand in strictly ascending order.
pub open spec fn ascending(names: Seq<String>) -> bool {
    forall|i: int, j: int|
        0 <= i < j < names.len() ==> precedes(#[trigger] names[i]@, #[trigger] names[j]@)
}

/// Whether a name is among `names`.
pub open spec fn listed(names: Seq<String>, name: Seq<char>) -> bool {
    exists|i: int| 0 <= i < names.len() && #[trigger] names[i]@ == name
}

/// Enters a name into an ascending list, unless it stands there.
fn enter_name(names: &mut Vec<String>, name: &str)
    requires
        ascending(old(names)@),
    ensures
        ascending(final(names)@),
        forall|other: Seq<char>|
            #[trigger] listed(final(names)@, other) <==> listed(old(names)@, other) || other
                == name@,
{
    let ghost before = names@;
    let mut at: usize = 0;
    while at < names.len() && text_precedes(names[at].as_str(), name)
        invariant
            at <= names@.len(),
            names@ == before,
            ascending(before),
            forall|i: int| 0 <= i < at ==> precedes(#[trigger] before[i]@, name@),
        decreases names@.len() - at,
    {
        at = at + 1;
    }
    if at < names.len() && same_text(names[at].as_str(), name) {
        assert(before[at as int]@ == name@);
        return ;
    }
    let entry: String = name.to_owned();
    proof {
        if at < before.len() {
            texts_are_ordered(before[at as int]@, name@);
        }
        assert forall|j: int| at <= j < before.len() implies precedes(
            name@,
            #[trigger] before[j]@,
        ) by {
            if j > at {
                text_order_is_transitive(name@, before[at as int]@, before[j]@);
            }
        }
    }
    names.insert(at, entry);
    proof {
        let after = names@;
        assert(after == before.insert(at as int, entry));
        assert forall|other: Seq<char>| #[trigger]
            listed(after, other) <==> listed(before, other) || other == name@ by {
            if listed(before, other) {
                let i = choose|i: int| 0 <= i < before.len() && #[trigger] before[i]@ == other;
                if i < at {
                    assert(after[i]@ == other);
                } else {
                    assert(after[i + 1]@ == other);
                }
            }
            assert(after[at as int]@ == name@);
            if listed(after, other) {
                let i = choose|i: int| 0 <= i < after.len() && #[trigger] after[i]@ == other;
                if i < at {
                    assert(before[i]@ == other);
                } else if i > at {
                    assert(before[i - 1]@ == other);
                }
            }
        }
    }
}

/// The problem of one entry of a weight map.
pub open spec fn shard_problem(tensor: Seq<char>, shard: JsonTree) -> Option<
    ShardProblem<Seq<char>>,
> {
    match shard {
        JsonTree::Text(shard) => if path_components(shard) == 1 {
            None
        } else {
            Some(ShardProblem::InvalidPath(shard))
        },
        _ => Some(ShardProblem::NotText(tensor)),
    }
}

/// The first problem among the entries of a weight map.
pub open spec fn entries_problem(entries: Seq<(Seq<char>, JsonTree)>) -> Option<
    ShardProblem<Seq<char>>,
>
    decreases entries.len(),
{
    if entries.len() == 0 {
        None
    } else {
        match entries_problem(entries.drop_last()) {
            Some(problem) => Some(problem),
            None => shard_problem(entries.last().0, entries.last().1),
        }
    }
}

/// The first problem of a shard index.
pub open spec fn index_problem(index: JsonTree) -> Option<ShardProblem<Seq<char>>> {
    match index.get("weight_map"@) {
        Some(JsonTree::Object(entries)) => if entries.len() == 0 {
            Some(ShardProblem::EmptyWeightMap)
        } else {
            entries_problem(entries)
        },
        _ => Some(ShardProblem::MissingWeightMap),
    }
}

/// Whether some tensor of the index lies in this shard.
pub open spec fn holds_shard(entries: Seq<(Seq<char>, JsonTree)>, shard: Seq<char>) -> bool {
    exists|i: int| 0 <= i < entries.len() && #[trigger] entries[i].1 == JsonTree::Text(shard)
}

/// Once a prefix of the entries has a problem, all of them have the same first problem.
proof fn first_problem_stays(entries: Seq<(Seq<char>, JsonTree)>, count: int)
    requires
        0 <= count <= entries.len(),
        entries_problem(entries.take(count)) is Some,
    ensures
        entries_problem(entries) == entries_problem(entries.take(count)),
    decreases entries.len() - count,
{
    if count == entries.len() {
        assert(entries.take(count) == entries);
    } else {
        assert(entries.take(count + 1).drop_last() == entries.take(count));
        first_problem_stays(entries, count + 1);
    }
}

/// The shards that an index names, each once, in ascending order.
pub fn shards_of_index(index: &Json) -> (result: Result<Vec<String>, ShardError>)
    ensures
        match result {
            Ok(shards) => {
                &&& index_problem(index.tree()) is None
                &&& ascending(shards@)
                &&& forall|shard: Seq<char>|
                    #[trigger] listed(shards@, shard) <==> holds_shard(
                        index.tree().get("weight_map"@)->0->Object_0,
                        shard,
                    )
            },
            Err(error) => index_problem(index.tree()) == Some(error@),
        },
{
    let entries: &Vec<(String, Json)> = match index.get("weight_map") {
        Some(Json::Object(entries)) => entries,
        _ => {
            return Err(ShardProblem::MissingWeightMap);
        },
    };
    let ghost tree = Json::Object(*entries).tree()->Object_0;
    if entries.len() == 0 {
        return Err(ShardProblem::EmptyWeightMap);
    }
    let mut shards: Vec<String> = Vec::new();
    let mut at: usize = 0;
    while at < entries.len()
        invariant
            at <= entries@.len(),
            tree == Json::Object(*entries).tree()->Object_0,
            tree.len() == entries@.len(),
            tree.len() > 0,
            index.tree().get("weight_map"@) == Some(JsonTree::Object(tree)),
            entries_problem(tree.take(at as int)) is None,
            ascending(shards@),
            forall|shard: Seq<char>|
                #[trigger] listed(shards@, shard) <==> holds_shard(tree.take(at as int), shard),
        decreases entries@.len() - at,
    {
        let tensor: &str = entries[at].0.as_str();
        let shard: Option<&str> = entries[at].1.as_str();
        proof {
            assert(tree[at as int] == (tensor@, entries@[at as int].1.tree()));
            assert(tree.take(at + 1).drop_last() == tree.take(at as int));
            assert(tree.take(at + 1).last() == tree[at as int]);
            if shard_problem(tensor@, tree[at as int].1) is Some {
                first_problem_stays(tree, at + 1);
            }
        }
        let shard: &str = match shard {
            Some(shard) => shard,
            None => {
                return Err(ShardProblem::NotText(tensor.to_owned()));
            },
        };
        if !is_single_component(shard) {
            return Err(ShardProblem::InvalidPath(shard.to_owned()));
        }
        let ghost before = shards@;
        enter_name(&mut shards, shard);
        proof {
            let front = tree.take(at as int);
            let longer = tree.take(at + 1);
            assert forall|other: Seq<char>| #[trigger]
                listed(shards@, other) <==> holds_shard(longer, other) by {
                assert(listed(before, other) <==> holds_shard(front, other));
                if holds_shard(front, other) {
                    let i = choose|i: int|
                        0 <= i < front.len() && #[trigger] front[i].1 == JsonTree::Text(other);
                    assert(longer[i].1 == JsonTree::Text(other));
                }
                assert(longer[at as int].1 == JsonTree::Text(shard@));
                if holds_shard(longer, other) {
                    let i = choose|i: int|
                        0 <= i < longer.len() && #[trigger] longer[i].1 == JsonTree::Text(other);
                    if i < at {
                        assert(front[i].1 == JsonTree::Text(other));
                    }
                }
            }
        }
        at = at + 1;
    }
    assert(tree.take(at as int) == tree);
    Ok(shards)
}

/// Reads a shard index and lists the shards that it names.
pub fn parse_shard_index(text: &str) -> (result: Result<Vec<String>, ShardError>)
    ensures
        match json_of_text(text@) {
            Some(index) => match result {
                Ok(shards) => {
                    &&& index_problem(index) is None
                    &&& ascending(shards@)
                    &&& forall|shard: Seq<char>|
                        #[trigger] listed(shards@, shard) <==> holds_shard(
                            index.get("weight_map"@)->0->Object_0,
                            shard,
                        )
                },
                Err(error) => index_problem(index) == Some(error@),
            },
            None => result matches Err(error) && error@ == ShardProblem::<Seq<char>>::Malformed,
        },
{
    match parse_json(text) {
        Some(index) => shards_of_index(&index),
        None => Err(ShardProblem::Malformed),
    }
}

/// Checks that every shard file is there. The first that is absent is reported.
pub fn validate_shards(shards: &Vec<String>, present: &Vec<bool>) -> (result: Result<
    (),
    ShardError,
>)
    requires
        shards@.len() == present@.len(),
    ensures
        match result {
            Ok(_) => forall|i: int| 0 <= i < present@.len() ==> #[trigger] present@[i],
            Err(error) => exists|i: int|
                {
                    &&& 0 <= i < present@.len()
                    &&& !#[trigger] present@[i]
                    &&& forall|j: int| 0 <= j < i ==> #[trigger] present@[j]
                    &&& error@ == ShardProblem::Missing(shards@[i]@)
                },
        },
{
    let mut index: usize = 0;
    while index < shards.len()
        invariant
            index <= shards@.len(),
            shards@.len() == present@.len(),
            forall|i: int| 0 <= i < index ==> #[trigger] present@[i],
        decreases shards@.len() - index,
    {
        if !present[index] {
            return Err(ShardProblem::Missing(shards[index].clone()));
        }
        index = index + 1;
    }
    Ok(())
}

/// The shards that an index names determine their list: two ascending lists of the same names are
/// the same.
pub proof fn ascending_lists_are_unique(left: Seq<String>, right: Seq<String>)
    requires
        ascending(left),
        ascending(right),
        forall|name: Seq<char>| #[trigger] listed(left, name) <==> listed(right, name),
    ensures
        left.len() == right.len(),
        forall|i: int| 0 <= i < left.len() ==> #[trigger] left[i]@ == right[i]@,
    decreases left.len(),
{
    if left.len() == 0 {
        if right.len() > 0 {
            assert(listed(right, right[0]@));
            assert(listed(left, right[0]@));
        }
    } else {
        assert(listed(left, left.last()@));
        assert(listed(right, left.last()@));
        assert(listed(right, right.last()@));
        assert(listed(left, right.last()@));
        let i = choose|i: int| 0 <= i < right.len() && #[trigger] right[i]@ == left.last()@;
        let j = choose|j: int| 0 <= j < left.len() && #[trigger] left[j]@ == right.last()@;
        texts_are_ordered(left.last()@, right.last()@);
        assert(left.last()@ == right.last()@) by {
            if i < right.len() - 1 && j < left.len() - 1 {
                assert(precedes(right[i]@, right[right.len() - 1]@));
                assert(precedes(left[j]@, left[left.len() - 1]@));
            }
        }
        let a = left.drop_last();
        let b = right.drop_last();
        assert forall|name: Seq<char>| #[trigger] listed(a, name) <==> listed(b, name) by {
            if listed(a, name) {
                let k = choose|k: int| 0 <= k < a.len() && #[trigger] a[k]@ == name;
                assert(left[k]@ == name);
                assert(precedes(left[k]@, left[left.len() - 1]@));
                texts_are_ordered(name, left.last()@);
                assert(listed(left, name));
                assert(listed(right, name));
                let m = choose|m: int| 0 <= m < right.len() && #[trigger] right[m]@ == name;
                assert(b[m]@ == name);
            }
            if listed(b, name) {
                let k = choose|k: int| 0 <= k < b.len() && #[trigger] b[k]@ == name;
                assert(right[k]@ == name);
                assert(precedes(right[k]@, right[right.len() - 1]@));
                texts_are_ordered(name, right.last()@);
                assert(listed(right, name));
                assert(listed(left, name));
                let m = choose|m: int| 0 <= m < left.len() && #[trigger] left[m]@ == name;
                assert(a[m]@ == name);
            }
        }
        ascending_lists_are_unique(a, b);
        assert forall|k: int| 0 <= k < left.len() implies #[trigger] left[k]@ == right[k]@ by {
            if k < left.len() - 1 {
                assert(a[k]@ == b[k]@);
            }
        }
    }
}

} // verus!
