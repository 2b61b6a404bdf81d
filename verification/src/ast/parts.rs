//! Parts of syntax trees.

use vstd::prelude::*;

use super::{
    arms_view, branches_view, commands_view, items_view, rest_view, words_view, AndOrList, CaseArm,
    Command, CommandList, LogicalOp, Pipeline,
};
use crate::token::Word;

verus! {

/// The number of items of a list.
pub fn item_count(list: &CommandList) -> (r: usize)
    ensures
        r == list@.len(),
{
    reveal(items_view);
    list.items.len()
}

/// The and-or list of item `i`.
pub fn and_or_at(list: &CommandList, i: usize) -> (r: AndOrList)
    requires
        i < list@.len(),
    ensures
        r@ == list@[i as int].and_or,
{
    reveal(items_view);
    list.items[i].and_or.clone()
}

/// The number of pipelines behind the first.
pub fn rest_count(list: &AndOrList) -> (r: usize)
    ensures
        r == list@.rest.len(),
{
    reveal(rest_view);
    list.rest.len()
}

/// The operator in front of pipeline `i` behind the first.
pub fn operator_at(list: &AndOrList, i: usize) -> (r: LogicalOp)
    requires
        i < list@.rest.len(),
    ensures
        r == list@.rest[i as int].0,
{
    reveal(rest_view);
    list.rest[i].0
}

/// Pipeline `i` behind the first.
pub fn pipeline_at(list: &AndOrList, i: usize) -> (r: Pipeline)
    requires
        i < list@.rest.len(),
    ensures
        r@ == list@.rest[i as int].1,
{
    reveal(rest_view);
    list.rest[i].1.clone()
}

/// The number of commands of a pipeline.
pub fn command_count(pipeline: &Pipeline) -> (r: usize)
    ensures
        r == pipeline@.len(),
{
    reveal(commands_view);
    pipeline.commands.len()
}

/// Command `i` of a pipeline.
pub fn command_at(pipeline: &Pipeline, i: usize) -> (r: Command)
    requires
        i < pipeline@.len(),
    ensures
        r@ == pipeline@[i as int],
{
    reveal(commands_view);
    pipeline.commands[i].clone()
}

/// The number of branches of an `if`.
pub fn branch_count(branches: &Vec<(CommandList, CommandList)>) -> (r: usize)
    ensures
        r == branches_view(branches@).len(),
{
    reveal(branches_view);
    branches.len()
}

/// The condition of branch `i`.
pub fn condition_at(branches: &Vec<(CommandList, CommandList)>, i: usize) -> (r: CommandList)
    requires
        i < branches_view(branches@).len(),
    ensures
        r@ == branches_view(branches@)[i as int].condition,
{
    reveal(branches_view);
    branches[i].0.clone()
}

/// The body of branch `i`.
pub fn body_at(branches: &Vec<(CommandList, CommandList)>, i: usize) -> (r: CommandList)
    requires
        i < branches_view(branches@).len(),
    ensures
        r@ == branches_view(branches@)[i as int].body,
{
    reveal(branches_view);
    branches[i].1.clone()
}

/// The number of arms of a `case`.
pub fn arm_count(arms: &Vec<CaseArm>) -> (r: usize)
    ensures
        r == arms_view(arms@).len(),
{
    reveal(arms_view);
    arms.len()
}

/// The patterns of arm `i`.
pub fn patterns_at(arms: &Vec<CaseArm>, i: usize) -> (r: &Vec<Word>)
    requires
        i < arms_view(arms@).len(),
    ensures
        words_view(r@) == arms_view(arms@)[i as int].patterns,
{
    reveal(arms_view);
    &arms[i].patterns
}

/// The body of arm `i`.
pub fn arm_body_at(arms: &Vec<CaseArm>, i: usize) -> (r: CommandList)
    requires
        i < arms_view(arms@).len(),
    ensures
        r@ == arms_view(arms@)[i as int].body,
{
    reveal(arms_view);
    arms[i].body.clone()
}

} // verus!
