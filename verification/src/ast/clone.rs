//! Copies of syntax trees: a copy has the view of what it was made from.

use vstd::prelude::*;

use super::{
    arm_view, arms_view, assignments_view, branches_view, command_view, commands_view, item_view,
    items_view, kind_view, list_view, pipeline_view, redirects_view, rest_view, words_view,
    AndOrList, Assignment, CaseArm, CaseClause, Command, CommandList, CommandListItem,
    CompoundCommand, CompoundCommandKind, ForClause, FunctionDefinition, IfClause, LogicalOp,
    Pipeline, Redirect, SimpleCommand, SubshellBody, UntilClause, WhileClause,
};
use crate::token::Word;

verus! {

impl Clone for Assignment {
    fn clone(&self) -> (r: Self)
        ensures
            r@ == self@,
    {
        Assignment { name: self.name.clone(), value: self.value.clone() }
    }
}

impl Clone for Redirect {
    fn clone(&self) -> (r: Self)
        ensures
            r@ == self@,
    {
        Redirect { fd: self.fd, operator: self.operator, target: self.target.clone() }
    }
}

/// A copy of a list of words.
pub fn clone_words(v: &Vec<Word>) -> (r: Vec<Word>)
    ensures
        words_view(r@) == words_view(v@),
{
    let mut r: Vec<Word> = Vec::new();
    let mut i: usize = 0;
    while i < v.len()
        invariant
            i <= v@.len(),
            r@.len() == i,
            forall|j: int| 0 <= j < i ==> (#[trigger] r@[j])@ == v@[j]@,
        decreases v@.len() - i,
    {
        r.push(v[i].clone());
        i += 1;
    }
    assert(words_view(r@) =~= words_view(v@));
    r
}

fn clone_redirects(v: &Vec<Redirect>) -> (r: Vec<Redirect>)
    ensures
        redirects_view(r@) == redirects_view(v@),
{
    let mut r: Vec<Redirect> = Vec::new();
    let mut i: usize = 0;
    while i < v.len()
        invariant
            i <= v@.len(),
            r@.len() == i,
            forall|j: int| 0 <= j < i ==> (#[trigger] r@[j])@ == v@[j]@,
        decreases v@.len() - i,
    {
        r.push(v[i].clone());
        i += 1;
    }
    assert(redirects_view(r@) =~= redirects_view(v@));
    r
}

fn clone_assignments(v: &Vec<Assignment>) -> (r: Vec<Assignment>)
    ensures
        assignments_view(r@) == assignments_view(v@),
{
    let mut r: Vec<Assignment> = Vec::new();
    let mut i: usize = 0;
    while i < v.len()
        invariant
            i <= v@.len(),
            r@.len() == i,
            forall|j: int| 0 <= j < i ==> (#[trigger] r@[j])@ == v@[j]@,
        decreases v@.len() - i,
    {
        r.push(v[i].clone());
        i += 1;
    }
    assert(assignments_view(r@) =~= assignments_view(v@));
    r
}

impl Clone for SimpleCommand {
    fn clone(&self) -> (r: Self)
        ensures
            r@ == self@,
    {
        SimpleCommand {
            assignments: clone_assignments(&self.assignments),
            name: match &self.name {
                Some(w) => Some(w.clone()),
                None => None,
            },
            args: clone_words(&self.args),
            redirects: clone_redirects(&self.redirects),
        }
    }
}

impl Clone for CommandList {
    fn clone(&self) -> (r: Self)
        ensures
            r@ == self@,
        decreases self,
    {
        reveal(items_view);
        CommandList { items: clone_items(&self.items) }
    }
}

fn clone_items(v: &Vec<CommandListItem>) -> (r: Vec<CommandListItem>)
    ensures
        items_view(r@) == items_view(v@),
    decreases v@,
{
    let mut r: Vec<CommandListItem> = Vec::new();
    let mut i: usize = 0;
    while i < v.len()
        invariant
            i <= v@.len(),
            r@.len() == i,
            forall|j: int| 0 <= j < i ==> item_view(#[trigger] r@[j]) == item_view(v@[j]),
        decreases v@.len() - i,
    {
        assert(decreases_to!(v@ => v@[i as int]));
        r.push(v[i].clone());
        i += 1;
    }
    reveal(items_view);
    assert(items_view(r@) =~= items_view(v@));
    r
}

impl Clone for CommandListItem {
    fn clone(&self) -> (r: Self)
        ensures
            r@ == self@,
        decreases self,
    {
        CommandListItem { and_or: self.and_or.clone(), separator: self.separator }
    }
}

impl Clone for AndOrList {
    fn clone(&self) -> (r: Self)
        ensures
            r@ == self@,
        decreases self,
    {
        reveal(rest_view);
        AndOrList { first: self.first.clone(), rest: clone_rest(&self.rest) }
    }
}

fn clone_rest(v: &Vec<(LogicalOp, Pipeline)>) -> (r: Vec<(LogicalOp, Pipeline)>)
    ensures
        rest_view(r@) == rest_view(v@),
    decreases v@,
{
    let mut r: Vec<(LogicalOp, Pipeline)> = Vec::new();
    let mut i: usize = 0;
    while i < v.len()
        invariant
            i <= v@.len(),
            r@.len() == i,
            forall|j: int|
                0 <= j < i ==> (#[trigger] r@[j]).0 == v@[j].0 && pipeline_view(r@[j].1)
                    == pipeline_view(v@[j].1),
        decreases v@.len() - i,
    {
        assert(decreases_to!(v@ => v@[i as int]));
        r.push((v[i].0, v[i].1.clone()));
        i += 1;
    }
    reveal(rest_view);
    assert(rest_view(r@) =~= rest_view(v@));
    r
}

impl Clone for Pipeline {
    fn clone(&self) -> (r: Self)
        ensures
            r@ == self@,
        decreases self,
    {
        reveal(commands_view);
        Pipeline { commands: clone_commands(&self.commands) }
    }
}

fn clone_commands(v: &Vec<Command>) -> (r: Vec<Command>)
    ensures
        commands_view(r@) == commands_view(v@),
    decreases v@,
{
    let mut r: Vec<Command> = Vec::new();
    let mut i: usize = 0;
    while i < v.len()
        invariant
            i <= v@.len(),
            r@.len() == i,
            forall|j: int| 0 <= j < i ==> command_view(#[trigger] r@[j]) == command_view(v@[j]),
        decreases v@.len() - i,
    {
        assert(decreases_to!(v@ => v@[i as int]));
        r.push(v[i].clone());
        i += 1;
    }
    reveal(commands_view);
    assert(commands_view(r@) =~= commands_view(v@));
    r
}

impl Clone for Command {
    fn clone(&self) -> (r: Self)
        ensures
            r@ == self@,
        decreases self,
    {
        match self {
            Command::Simple(c) => Command::Simple(c.clone()),
            Command::Compound(c) => Command::Compound(c.clone()),
            Command::Function(f) => Command::Function(f.clone()),
        }
    }
}

impl Clone for FunctionDefinition {
    fn clone(&self) -> (r: Self)
        ensures
            r@ == self@,
        decreases self,
    {
        FunctionDefinition { name: self.name.clone(), body: self.body.clone() }
    }
}

impl Clone for CompoundCommand {
    fn clone(&self) -> (r: Self)
        ensures
            r@ == self@,
        decreases self,
    {
        CompoundCommand { kind: self.kind.clone(), redirects: clone_redirects(&self.redirects) }
    }
}

impl Clone for CompoundCommandKind {
    fn clone(&self) -> (r: Self)
        ensures
            kind_view(r) == kind_view(*self),
        decreases self,
    {
        reveal(arms_view);
        reveal(branches_view);
        match self {
            CompoundCommandKind::BraceGroup(l) => CompoundCommandKind::BraceGroup(l.clone()),
            CompoundCommandKind::Subshell(b) => CompoundCommandKind::Subshell(
                SubshellBody { body: b.body.clone(), source: b.source.clone() },
            ),
            CompoundCommandKind::For(f) => CompoundCommandKind::For(
                ForClause {
                    name: f.name.clone(),
                    words: match &f.words {
                        Some(w) => Some(clone_words(w)),
                        None => None,
                    },
                    body: f.body.clone(),
                },
            ),
            CompoundCommandKind::Case(c) => CompoundCommandKind::Case(
                CaseClause { word: c.word.clone(), arms: clone_arms(&c.arms) },
            ),
            CompoundCommandKind::If(c) => CompoundCommandKind::If(
                IfClause {
                    branches: clone_branches(&c.branches),
                    else_branch: match &c.else_branch {
                        Some(l) => Some(l.clone()),
                        None => None,
                    },
                },
            ),
            CompoundCommandKind::While(c) => CompoundCommandKind::While(
                WhileClause { condition: c.condition.clone(), body: c.body.clone() },
            ),
            CompoundCommandKind::Until(c) => CompoundCommandKind::Until(
                UntilClause { condition: c.condition.clone(), body: c.body.clone() },
            ),
        }
    }
}

fn clone_arms(v: &Vec<CaseArm>) -> (r: Vec<CaseArm>)
    ensures
        arms_view(r@) == arms_view(v@),
    decreases v@,
{
    let mut r: Vec<CaseArm> = Vec::new();
    let mut i: usize = 0;
    while i < v.len()
        invariant
            i <= v@.len(),
            r@.len() == i,
            forall|j: int| 0 <= j < i ==> arm_view(#[trigger] r@[j]) == arm_view(v@[j]),
        decreases v@.len() - i,
    {
        assert(decreases_to!(v@ => v@[i as int]));
        let arm = CaseArm {
            patterns: clone_words(&v[i].patterns),
            body: v[i].body.clone(),
            terminator: v[i].terminator,
        };
        r.push(arm);
        i += 1;
    }
    reveal(arms_view);
    assert(arms_view(r@) =~= arms_view(v@));
    r
}

fn clone_branches(v: &Vec<(CommandList, CommandList)>) -> (r: Vec<(CommandList, CommandList)>)
    ensures
        branches_view(r@) == branches_view(v@),
    decreases v@,
{
    let mut r: Vec<(CommandList, CommandList)> = Vec::new();
    let mut i: usize = 0;
    while i < v.len()
        invariant
            i <= v@.len(),
            r@.len() == i,
            forall|j: int|
                0 <= j < i ==> list_view((#[trigger] r@[j]).0) == list_view(v@[j].0) && list_view(
                    r@[j].1,
                ) == list_view(v@[j].1),
        decreases v@.len() - i,
    {
        assert(decreases_to!(v@ => v@[i as int]));
        r.push((v[i].0.clone(), v[i].1.clone()));
        i += 1;
    }
    reveal(branches_view);
    assert(branches_view(r@) =~= branches_view(v@));
    r
}

impl Default for CommandList {
    fn default() -> (r: Self)
        ensures
            r@.len() == 0,
    {
        reveal(items_view);
        CommandList { items: Vec::new() }
    }
}

impl Default for SimpleCommand {
    fn default() -> (r: Self)
        ensures
            r@.assignments.len() == 0,
            r@.name is None,
            r@.args.len() == 0,
            r@.redirects.len() == 0,
    {
        SimpleCommand {
            assignments: Vec::new(),
            name: None,
            args: Vec::new(),
            redirects: Vec::new(),
        }
    }
}

} // verus!
