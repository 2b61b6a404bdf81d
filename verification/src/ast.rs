//! The syntax tree: simple commands, pipelines, lists and compound commands.
//!
//! The tree has only a shape. What its nodes do is the executor's affair.
//! As with tokens, each type has a view in which text is a sequence of
//! characters.

use vstd::prelude::*;

use crate::token::{Word, WordV};

pub mod clone;
pub mod parts;

verus! {

/// How an item of a list was terminated.
#[derive(Debug, Clone, Copy, PartialEq, Eq, Structural)]
pub enum Separator {
    /// `;` or a newline.
    Sequential,
    /// `&`.
    Async,
    /// Nothing: the end of the list.
    End,
}

/// `&&` or `||`.
#[derive(Debug, Clone, Copy, PartialEq, Eq, Structural)]
pub enum LogicalOp {
    /// `&&`
    And,
    /// `||`
    Or,
}

/// How an arm of a `case` ends.
#[derive(Debug, Clone, Copy, PartialEq, Eq, Structural)]
pub enum CaseTerminator {
    /// `;;`
    Break,
    /// Nothing, which only the last arm may have.
    Omitted,
}

/// A redirection operator.
#[derive(Debug, Clone, Copy, PartialEq, Eq, Structural)]
pub enum RedirectOperator {
    /// `<`
    Input,
    /// `>`
    Output,
    /// `>>`
    Append,
}

/// A `NAME=value` assignment.
#[derive(Debug, PartialEq, Eq)]
pub struct Assignment {
    pub name: String,
    pub value: Word,
}

/// A redirection.
#[derive(Debug, PartialEq, Eq)]
pub struct Redirect {
    /// The file descriptor, where it is written out.
    pub fd: Option<u32>,
    pub operator: RedirectOperator,
    pub target: Word,
}

/// A simple command.
#[derive(Debug, PartialEq, Eq)]
pub struct SimpleCommand {
    /// The leading assignments, in order.
    pub assignments: Vec<Assignment>,
    /// The command name; without one, the command only assigns and redirects.
    pub name: Option<Word>,
    /// The arguments.
    pub args: Vec<Word>,
    /// Every redirection, in order.
    pub redirects: Vec<Redirect>,
}

/// A list of commands.
#[derive(Debug, PartialEq, Eq)]
pub struct CommandList {
    pub items: Vec<CommandListItem>,
}

/// One item of a list, with the separator that follows it.
#[derive(Debug, PartialEq, Eq)]
pub struct CommandListItem {
    pub and_or: AndOrList,
    pub separator: Separator,
}

/// Pipelines joined by `&&` and `||`, from left to right.
#[derive(Debug, PartialEq, Eq)]
pub struct AndOrList {
    pub first: Pipeline,
    pub rest: Vec<(LogicalOp, Pipeline)>,
}

/// One or more commands joined by `|`.
#[derive(Debug, PartialEq, Eq)]
pub struct Pipeline {
    pub commands: Vec<Command>,
}

/// A command.
#[derive(Debug, PartialEq, Eq)]
pub enum Command {
    Simple(SimpleCommand),
    Compound(CompoundCommand),
    Function(FunctionDefinition),
}

/// A function definition, in either syntax.
#[derive(Debug, PartialEq, Eq)]
pub struct FunctionDefinition {
    pub name: String,
    pub body: CompoundCommand,
}

/// A compound command and the redirections that follow it.
#[derive(Debug, PartialEq, Eq)]
pub struct CompoundCommand {
    pub kind: CompoundCommandKind,
    pub redirects: Vec<Redirect>,
}

/// The kinds of compound command.
#[derive(Debug, PartialEq, Eq)]
pub enum CompoundCommandKind {
    /// `{ list; }`
    BraceGroup(CommandList),
    /// `( list )`
    Subshell(SubshellBody),
    For(ForClause),
    Case(CaseClause),
    If(IfClause),
    While(WhileClause),
    Until(UntilClause),
}

/// The body of a subshell, parsed and as source text: it runs as a process of
/// its own, from its text.
#[derive(Debug, PartialEq, Eq)]
pub struct SubshellBody {
    pub body: CommandList,
    pub source: String,
}

/// `for name [in words]; do body; done`
#[derive(Debug, PartialEq, Eq)]
pub struct ForClause {
    pub name: String,
    /// `None` where there is no `in`: the loop is over the positional
    /// parameters.
    pub words: Option<Vec<Word>>,
    pub body: CommandList,
}

/// `case word in arms esac`
#[derive(Debug, PartialEq, Eq)]
pub struct CaseClause {
    pub word: Word,
    pub arms: Vec<CaseArm>,
}

/// One arm of a `case`.
#[derive(Debug, PartialEq, Eq)]
pub struct CaseArm {
    pub patterns: Vec<Word>,
    pub body: CommandList,
    pub terminator: CaseTerminator,
}

/// `if`, any number of `elif`, and perhaps an `else`.
#[derive(Debug, PartialEq, Eq)]
pub struct IfClause {
    /// The conditions with their bodies, `if` first, then each `elif`.
    pub branches: Vec<(CommandList, CommandList)>,
    pub else_branch: Option<CommandList>,
}

/// `while condition; do body; done`
#[derive(Debug, PartialEq, Eq)]
pub struct WhileClause {
    pub condition: CommandList,
    pub body: CommandList,
}

/// `until condition; do body; done`
#[derive(Debug, PartialEq, Eq)]
pub struct UntilClause {
    pub condition: CommandList,
    pub body: CommandList,
}

// ---- views ----------------------------------------------------------------------

/// View of [`Assignment`].
pub ghost struct AssignmentV {
    pub name: Seq<char>,
    pub value: WordV,
}

/// View of [`Redirect`].
pub ghost struct RedirectV {
    pub fd: Option<u32>,
    pub operator: RedirectOperator,
    pub target: WordV,
}

/// View of [`SimpleCommand`].
pub ghost struct SimpleCommandV {
    pub assignments: Seq<AssignmentV>,
    pub name: Option<WordV>,
    pub args: Seq<WordV>,
    pub redirects: Seq<RedirectV>,
}

/// View of [`CommandList`].
pub type ListV = Seq<ItemV>;

/// View of [`CommandListItem`].
pub ghost struct ItemV {
    pub and_or: AndOrV,
    pub separator: Separator,
}

/// View of [`AndOrList`].
pub ghost struct AndOrV {
    pub first: Seq<CommandV>,
    pub rest: Seq<(LogicalOp, Seq<CommandV>)>,
}

/// View of [`Command`].
pub ghost enum CommandV {
    Simple(SimpleCommandV),
    Compound(CompoundV),
    Function(FunctionV),
}

/// View of [`FunctionDefinition`].
pub ghost struct FunctionV {
    pub name: Seq<char>,
    pub body: CompoundV,
}

/// View of [`CompoundCommand`].
pub ghost struct CompoundV {
    pub kind: KindV,
    pub redirects: Seq<RedirectV>,
}

/// View of [`CompoundCommandKind`].
pub ghost enum KindV {
    BraceGroup(Seq<ItemV>),
    Subshell { body: Seq<ItemV>, source: Seq<char> },
    For { name: Seq<char>, words: Option<Seq<WordV>>, body: Seq<ItemV> },
    Case { word: WordV, arms: Seq<ArmV> },
    If { branches: Seq<BranchV>, else_branch: Option<Seq<ItemV>> },
    While { condition: Seq<ItemV>, body: Seq<ItemV> },
    Until { condition: Seq<ItemV>, body: Seq<ItemV> },
}

/// View of one branch of an [`IfClause`].
pub ghost struct BranchV {
    pub condition: Seq<ItemV>,
    pub body: Seq<ItemV>,
}

/// View of [`CaseArm`].
pub ghost struct ArmV {
    pub patterns: Seq<WordV>,
    pub body: Seq<ItemV>,
    pub terminator: CaseTerminator,
}

/// The views of a sequence of words.
pub open spec fn words_view(s: Seq<Word>) -> Seq<WordV> {
    s.map_values(|w: Word| w@)
}

impl View for Assignment {
    type V = AssignmentV;

    open spec fn view(&self) -> AssignmentV {
        AssignmentV { name: self.name@, value: self.value@ }
    }
}

/// The views of a sequence of assignments.
pub open spec fn assignments_view(s: Seq<Assignment>) -> Seq<AssignmentV> {
    s.map_values(|a: Assignment| a@)
}

impl View for Redirect {
    type V = RedirectV;

    open spec fn view(&self) -> RedirectV {
        RedirectV { fd: self.fd, operator: self.operator, target: self.target@ }
    }
}

/// The views of a sequence of redirections.
pub open spec fn redirects_view(s: Seq<Redirect>) -> Seq<RedirectV> {
    s.map_values(|r: Redirect| r@)
}

/// The view of an optional word.
pub open spec fn word_option_view(w: Option<Word>) -> Option<WordV> {
    match w {
        Some(w) => Some(w@),
        None => None,
    }
}

impl View for SimpleCommand {
    type V = SimpleCommandV;

    open spec fn view(&self) -> SimpleCommandV {
        SimpleCommandV {
            assignments: assignments_view(self.assignments@),
            name: word_option_view(self.name),
            args: words_view(self.args@),
            redirects: redirects_view(self.redirects@),
        }
    }
}

/// The view of a list.
pub open spec fn list_view(l: CommandList) -> ListV
    decreases l,
{
    items_view(l.items@)
}

/// The view of an optional list.
pub open spec fn list_option_view(l: Option<CommandList>) -> Option<ListV>
    decreases l,
{
    match l {
        Some(l) => Some(list_view(l)),
        None => None,
    }
}

/// The views of a sequence of list items.
#[verifier::opaque]
pub open spec fn items_view(s: Seq<CommandListItem>) -> Seq<ItemV>
    decreases s,
{
    Seq::new(
        s.len(),
        |i: int|
            if 0 <= i < s.len() {
                item_view(s[i])
            } else {
                arbitrary()
            },
    )
}

/// The view of a list item.
pub open spec fn item_view(it: CommandListItem) -> ItemV
    decreases it,
{
    ItemV { and_or: and_or_view(it.and_or), separator: it.separator }
}

/// The view of an and-or list.
pub open spec fn and_or_view(a: AndOrList) -> AndOrV
    decreases a,
{
    AndOrV { first: pipeline_view(a.first), rest: rest_view(a.rest@) }
}

/// The views of the later pipelines of an and-or list.
#[verifier::opaque]
pub open spec fn rest_view(s: Seq<(LogicalOp, Pipeline)>) -> Seq<(LogicalOp, Seq<CommandV>)>
    decreases s,
{
    Seq::new(
        s.len(),
        |i: int|
            if 0 <= i < s.len() {
                (s[i].0, pipeline_view(s[i].1))
            } else {
                arbitrary()
            },
    )
}

/// The view of a pipeline: the views of its commands.
pub open spec fn pipeline_view(p: Pipeline) -> Seq<CommandV>
    decreases p,
{
    commands_view(p.commands@)
}

/// The views of a sequence of commands.
#[verifier::opaque]
pub open spec fn commands_view(s: Seq<Command>) -> Seq<CommandV>
    decreases s,
{
    Seq::new(
        s.len(),
        |i: int|
            if 0 <= i < s.len() {
                command_view(s[i])
            } else {
                arbitrary()
            },
    )
}

/// The view of a command.
pub open spec fn command_view(c: Command) -> CommandV
    decreases c,
{
    match c {
        Command::Simple(s) => CommandV::Simple(s@),
        Command::Compound(c) => CommandV::Compound(compound_view(c)),
        Command::Function(f) => CommandV::Function(function_view(f)),
    }
}

/// The view of a function definition.
pub open spec fn function_view(f: FunctionDefinition) -> FunctionV
    decreases f,
{
    FunctionV { name: f.name@, body: compound_view(f.body) }
}

/// The view of a compound command.
pub open spec fn compound_view(c: CompoundCommand) -> CompoundV
    decreases c,
{
    CompoundV { kind: kind_view(c.kind), redirects: redirects_view(c.redirects@) }
}

/// The view of what a compound command is.
pub open spec fn kind_view(k: CompoundCommandKind) -> KindV
    decreases k,
{
    match k {
        CompoundCommandKind::BraceGroup(l) => KindV::BraceGroup(list_view(l)),
        CompoundCommandKind::Subshell(b) => KindV::Subshell {
            body: list_view(b.body),
            source: b.source@,
        },
        CompoundCommandKind::For(f) => KindV::For {
            name: f.name@,
            words: match f.words {
                Some(w) => Some(words_view(w@)),
                None => None,
            },
            body: list_view(f.body),
        },
        CompoundCommandKind::Case(c) => KindV::Case { word: c.word@, arms: arms_view(c.arms@) },
        CompoundCommandKind::If(c) => KindV::If {
            branches: branches_view(c.branches@),
            else_branch: list_option_view(c.else_branch),
        },
        CompoundCommandKind::While(c) => KindV::While {
            condition: list_view(c.condition),
            body: list_view(c.body),
        },
        CompoundCommandKind::Until(c) => KindV::Until {
            condition: list_view(c.condition),
            body: list_view(c.body),
        },
    }
}

/// The views of the arms of a `case`.
#[verifier::opaque]
pub open spec fn arms_view(s: Seq<CaseArm>) -> Seq<ArmV>
    decreases s,
{
    Seq::new(
        s.len(),
        |i: int|
            if 0 <= i < s.len() {
                arm_view(s[i])
            } else {
                arbitrary()
            },
    )
}

/// The view of one arm.
pub open spec fn arm_view(a: CaseArm) -> ArmV
    decreases a,
{
    ArmV {
        patterns: words_view(a.patterns@),
        body: list_view(a.body),
        terminator: a.terminator,
    }
}

/// The view of one branch of an `if`.
pub open spec fn branch_view(b: (CommandList, CommandList)) -> BranchV {
    BranchV { condition: list_view(b.0), body: list_view(b.1) }
}

/// The views of the branches of an `if`.
#[verifier::opaque]
pub open spec fn branches_view(s: Seq<(CommandList, CommandList)>) -> Seq<BranchV>
    decreases s,
{
    Seq::new(
        s.len(),
        |i: int|
            if 0 <= i < s.len() {
                BranchV { condition: list_view(s[i].0), body: list_view(s[i].1) }
            } else {
                arbitrary()
            },
    )
}

impl View for CommandList {
    type V = ListV;

    open spec fn view(&self) -> ListV {
        list_view(*self)
    }
}

impl View for CommandListItem {
    type V = ItemV;

    open spec fn view(&self) -> ItemV {
        item_view(*self)
    }
}

impl View for AndOrList {
    type V = AndOrV;

    open spec fn view(&self) -> AndOrV {
        and_or_view(*self)
    }
}

impl View for Pipeline {
    type V = Seq<CommandV>;

    open spec fn view(&self) -> Seq<CommandV> {
        pipeline_view(*self)
    }
}

impl View for Command {
    type V = CommandV;

    open spec fn view(&self) -> CommandV {
        command_view(*self)
    }
}

impl View for FunctionDefinition {
    type V = FunctionV;

    open spec fn view(&self) -> FunctionV {
        function_view(*self)
    }
}

impl View for CompoundCommand {
    type V = CompoundV;

    open spec fn view(&self) -> CompoundV {
        compound_view(*self)
    }
}

impl View for CaseArm {
    type V = ArmV;

    open spec fn view(&self) -> ArmV {
        arm_view(*self)
    }
}

// ---- growing a sequence grows its view ----------------------------------------------

pub broadcast proof fn lemma_words_view_push(s: Seq<Word>, x: Word)
    ensures
        #[trigger] words_view(s.push(x)) == words_view(s).push(x@),
{
    assert(words_view(s.push(x)) =~= words_view(s).push(x@));
}

pub broadcast proof fn lemma_assignments_view_push(s: Seq<Assignment>, x: Assignment)
    ensures
        #[trigger] assignments_view(s.push(x)) == assignments_view(s).push(x@),
{
    assert(assignments_view(s.push(x)) =~= assignments_view(s).push(x@));
}

pub broadcast proof fn lemma_redirects_view_push(s: Seq<Redirect>, x: Redirect)
    ensures
        #[trigger] redirects_view(s.push(x)) == redirects_view(s).push(x@),
{
    assert(redirects_view(s.push(x)) =~= redirects_view(s).push(x@));
}

pub broadcast proof fn lemma_items_view_push(s: Seq<CommandListItem>, x: CommandListItem)
    ensures
        #[trigger] items_view(s.push(x)) == items_view(s).push(item_view(x)),
{
    reveal(items_view);
    assert(items_view(s.push(x)) =~= items_view(s).push(item_view(x)));
}

pub broadcast proof fn lemma_rest_view_push(
    s: Seq<(LogicalOp, Pipeline)>,
    x: (LogicalOp, Pipeline),
)
    ensures
        #[trigger] rest_view(s.push(x)) == rest_view(s).push((x.0, pipeline_view(x.1))),
{
    reveal(rest_view);
    assert(rest_view(s.push(x)) =~= rest_view(s).push((x.0, pipeline_view(x.1))));
}

pub broadcast proof fn lemma_commands_view_push(s: Seq<Command>, x: Command)
    ensures
        #[trigger] commands_view(s.push(x)) == commands_view(s).push(command_view(x)),
{
    reveal(commands_view);
    assert(commands_view(s.push(x)) =~= commands_view(s).push(command_view(x)));
}

pub broadcast proof fn lemma_arms_view_push(s: Seq<CaseArm>, x: CaseArm)
    ensures
        #[trigger] arms_view(s.push(x)) == arms_view(s).push(arm_view(x)),
{
    reveal(arms_view);
    assert(arms_view(s.push(x)) =~= arms_view(s).push(arm_view(x)));
}

pub broadcast proof fn lemma_branches_view_push(
    s: Seq<(CommandList, CommandList)>,
    x: (CommandList, CommandList),
)
    ensures
        #[trigger] branches_view(s.push(x)) == branches_view(s).push(branch_view(x)),
{
    reveal(branches_view);
    assert(branches_view(s.push(x)) =~= branches_view(s).push(branch_view(x)));
}

pub proof fn lemma_empty_views()
    ensures
        words_view(Seq::empty()) == Seq::<WordV>::empty(),
        assignments_view(Seq::empty()) == Seq::<AssignmentV>::empty(),
        redirects_view(Seq::empty()) == Seq::<RedirectV>::empty(),
        items_view(Seq::empty()) == Seq::<ItemV>::empty(),
        rest_view(Seq::empty()) == Seq::<(LogicalOp, Seq<CommandV>)>::empty(),
        commands_view(Seq::empty()) == Seq::<CommandV>::empty(),
        arms_view(Seq::empty()) == Seq::<ArmV>::empty(),
        branches_view(Seq::empty()) == Seq::<BranchV>::empty(),
{
    reveal(items_view);
    reveal(rest_view);
    reveal(commands_view);
    reveal(arms_view);
    reveal(branches_view);
    assert(words_view(Seq::empty()) =~= Seq::<WordV>::empty());
    assert(assignments_view(Seq::empty()) =~= Seq::<AssignmentV>::empty());
    assert(redirects_view(Seq::empty()) =~= Seq::<RedirectV>::empty());
    assert(items_view(Seq::empty()) =~= Seq::<ItemV>::empty());
    assert(rest_view(Seq::empty()) =~= Seq::<(LogicalOp, Seq<CommandV>)>::empty());
    assert(commands_view(Seq::empty()) =~= Seq::<CommandV>::empty());
    assert(arms_view(Seq::empty()) =~= Seq::<ArmV>::empty());
    assert(branches_view(Seq::empty()) =~= Seq::<BranchV>::empty());
}

pub broadcast group group_ast_views {
    lemma_words_view_push,
    lemma_assignments_view_push,
    lemma_redirects_view_push,
    lemma_items_view_push,
    lemma_rest_view_push,
    lemma_commands_view_push,
    lemma_arms_view_push,
    lemma_branches_view_push,
}

} // verus!
