//! Expansion of the parts of a simple command.

use vstd::prelude::*;

use crate::ast::{
    assignments_view, redirects_view, words_view, Assignment, AssignmentV, Redirect,
    RedirectOperator, RedirectV, SimpleCommand, SimpleCommandV,
};
use crate::brace::{brace_expand, words_from};
use crate::expand::laws::{extends, law_expansion_can_be_resumed, sound};
use crate::expand::rules::{
    done, stopped, word_fields, word_pattern, word_text, AnswersV, OutV, StopV, UsedV,
};
use crate::expand::{
    expand_word_as_pattern, expand_word_fields, expand_word_single, texts_result, Answers, Stop,
    Used,
};
use crate::glob::{glob_match, glob_matches};
use crate::shell::{Shell, ShellV};
use crate::text::{lemma_texts_empty, lemma_texts_push, texts};
use crate::token::{Word, WordV};

pub mod laws;

verus! {

broadcast use {lemma_texts_push, lemma_texts_empty};

// ---- the rules ------------------------------------------------------------------------------

/// The fields of words `k` on of the variants of a word, behind `acc`.
pub open spec fn variants_fields(
    variants: Seq<WordV>,
    k: int,
    sh: ShellV,
    used: UsedV,
    a: AnswersV,
    acc: Seq<Seq<char>>,
) -> OutV<Seq<Seq<char>>>
    decreases variants.len() - k,
{
    if k < 0 || k >= variants.len() {
        done(sh, used, acc)
    } else {
        let o = word_fields(variants[k], sh, used, a);
        match o.result {
            Ok(fields) => variants_fields(variants, k + 1, o.shell, o.used, a, acc + fields),
            Err(_) => o,
        }
    }
}

/// The fields of words `i` on, behind `acc`: braces are expanded first.
pub open spec fn words_fields(
    words: Seq<WordV>,
    i: int,
    sh: ShellV,
    used: UsedV,
    a: AnswersV,
    acc: Seq<Seq<char>>,
) -> OutV<Seq<Seq<char>>>
    decreases words.len() - i,
{
    if i < 0 || i >= words.len() {
        done(sh, used, acc)
    } else {
        let o = variants_fields(words_from(words[i], 0), 0, sh, used, a, acc);
        match o.result {
            Ok(fields) => words_fields(words, i + 1, o.shell, o.used, a, fields),
            Err(_) => o,
        }
    }
}

/// Assignments `i` on with their values, behind `acc`.
pub open spec fn assigned_values(
    assignments: Seq<AssignmentV>,
    i: int,
    sh: ShellV,
    used: UsedV,
    a: AnswersV,
    acc: Seq<(Seq<char>, Seq<char>)>,
) -> OutV<Seq<(Seq<char>, Seq<char>)>>
    decreases assignments.len() - i,
{
    if i < 0 || i >= assignments.len() {
        done(sh, used, acc)
    } else {
        let o = word_text(assignments[i].value, sh, used, a);
        match o.result {
            Ok(v) => assigned_values(
                assignments,
                i + 1,
                o.shell,
                o.used,
                a,
                acc.push((assignments[i].name, v)),
            ),
            Err(_) => stopped(o),
        }
    }
}

/// A redirection whose target is expanded.
pub ghost struct ExpandedRedirectV {
    pub fd: u32,
    pub operator: RedirectOperator,
    pub target: Seq<char>,
}

/// The file descriptor that a redirection is about.
pub open spec fn redirected_fd(fd: Option<u32>, operator: RedirectOperator) -> u32 {
    match fd {
        Some(fd) => fd,
        None => if operator is Input {
            0
        } else {
            1
        },
    }
}

/// Redirections `i` on, expanded, behind `acc`.
pub open spec fn expanded_redirects(
    redirects: Seq<RedirectV>,
    i: int,
    sh: ShellV,
    used: UsedV,
    a: AnswersV,
    acc: Seq<ExpandedRedirectV>,
) -> OutV<Seq<ExpandedRedirectV>>
    decreases redirects.len() - i,
{
    if i < 0 || i >= redirects.len() {
        done(sh, used, acc)
    } else {
        let r = redirects[i];
        let o = word_text(r.target, sh, used, a);
        match o.result {
            Ok(target) => expanded_redirects(
                redirects,
                i + 1,
                o.shell,
                o.used,
                a,
                acc.push(
                    ExpandedRedirectV {
                        fd: redirected_fd(r.fd, r.operator),
                        operator: r.operator,
                        target,
                    },
                ),
            ),
            Err(_) => stopped(o),
        }
    }
}

/// A simple command whose words are expanded.
pub ghost struct PreparedV {
    pub assignments: Seq<(Seq<char>, Seq<char>)>,
    /// The name and the arguments; `None` for a command that only assigns.
    pub fields: Option<Seq<Seq<char>>>,
    pub redirects: Seq<ExpandedRedirectV>,
}

/// No answers used.
pub open spec fn unused() -> UsedV {
    UsedV { outputs: 0, listings: 0 }
}

/// A simple command expanded: the assignments, the name, the arguments, the
/// redirections, in this order. A command without a name, or whose name expands
/// to nothing, is not expanded further.
pub open spec fn prepared(cmd: SimpleCommandV, sh: ShellV, a: AnswersV) -> OutV<PreparedV> {
    let o = assigned_values(cmd.assignments, 0, sh, unused(), a, Seq::empty());
    match o.result {
        Err(_) => stopped(o),
        Ok(assignments) => match cmd.name {
            None => done(
                o.shell,
                o.used,
                PreparedV { assignments, fields: None, redirects: Seq::empty() },
            ),
            Some(name) => prepared_call(cmd, name, assignments, o.shell, o.used, a),
        },
    }
}

/// The rest of a simple command with a name.
pub open spec fn prepared_call(
    cmd: SimpleCommandV,
    name: WordV,
    assignments: Seq<(Seq<char>, Seq<char>)>,
    sh: ShellV,
    used: UsedV,
    a: AnswersV,
) -> OutV<PreparedV> {
    let o = words_fields(seq![name], 0, sh, used, a, Seq::empty());
    match o.result {
        Err(_) => stopped(o),
        Ok(names) => if names.len() == 0 {
            done(
                o.shell,
                o.used,
                PreparedV { assignments, fields: Some(names), redirects: Seq::empty() },
            )
        } else {
            let p = words_fields(cmd.args, 0, o.shell, o.used, a, names);
            match p.result {
                Err(_) => stopped(p),
                Ok(fields) => {
                    let q = expanded_redirects(
                        cmd.redirects,
                        0,
                        p.shell,
                        p.used,
                        a,
                        Seq::empty(),
                    );
                    match q.result {
                        Err(_) => stopped(q),
                        Ok(redirects) => done(
                            q.shell,
                            q.used,
                            PreparedV { assignments, fields: Some(fields), redirects },
                        ),
                    }
                },
            }
        },
    }
}

/// The last redirection of standard output: its target, and whether it appends.
pub open spec fn last_output(s: Seq<ExpandedRedirectV>) -> Option<(Seq<char>, bool)>
    decreases s.len(),
{
    if s.len() == 0 {
        None
    } else if s.last().fd == 1 && !(s.last().operator is Input) {
        Some((s.last().target, s.last().operator is Append))
    } else {
        last_output(s.drop_last())
    }
}

/// The target of the last redirection of standard input.
pub open spec fn last_input(s: Seq<ExpandedRedirectV>) -> Option<Seq<char>>
    decreases s.len(),
{
    if s.len() == 0 {
        None
    } else if s.last().fd == 0 && s.last().operator is Input {
        Some(s.last().target)
    } else {
        last_input(s.drop_last())
    }
}

/// Whether one of patterns `i` on matches `text`.
pub open spec fn pattern_matches(
    patterns: Seq<WordV>,
    i: int,
    text: Seq<char>,
    sh: ShellV,
    used: UsedV,
    a: AnswersV,
) -> OutV<bool>
    decreases patterns.len() - i,
{
    if i < 0 || i >= patterns.len() {
        done(sh, used, false)
    } else {
        let o = word_pattern(patterns[i], sh, used, a);
        match o.result {
            Err(_) => stopped(o),
            Ok(p) => if glob_matches(p, text) {
                done(o.shell, o.used, true)
            } else {
                pattern_matches(patterns, i + 1, text, o.shell, o.used, a)
            },
        }
    }
}

// ---- expanding --------------------------------------------------------------------------------

fn expand_variants(
    variants: &Vec<Word>,
    shell: &mut Shell,
    answers: &Answers,
    used: &mut Used,
    start: Vec<String>,
) -> (r: Result<Vec<String>, Stop>)
    ensures
        (OutV { shell: final(shell)@, used: final(used)@, result: texts_result(r) })
            == variants_fields(
            words_view(variants@),
            0,
            old(shell)@,
            old(used)@,
            answers@,
            texts(start@),
        ),
{
    let ghost all = words_view(variants@);
    let ghost first = texts(start@);
    let ghost whole = variants_fields(all, 0, shell@, used@, answers@, first);
    let mut fields = start;
    let mut k: usize = 0;
    while k < variants.len()
        invariant
            k <= variants@.len(),
            all == words_view(variants@),
            first == texts(start@),
            whole == variants_fields(all, 0, old(shell)@, old(used)@, answers@, first),
            whole == variants_fields(all, k as int, shell@, used@, answers@, texts(fields@)),
        decreases variants@.len() - k,
    {
        let ghost before = texts(fields@);
        assert(all[k as int] == variants@[k as int]@);
        let mut more = expand_word_fields(&variants[k], shell, answers, used)?;
        let ghost added = texts(more@);
        fields.append(&mut more);
        assert(texts(fields@) =~= before + added);
        k += 1;
    }
    Ok(fields)
}

/// Expands the braces of each word and then each word, to fields that follow
/// those of `start`.
pub fn expand_words_fields(
    words: &Vec<Word>,
    shell: &mut Shell,
    answers: &Answers,
    used: &mut Used,
    start: Vec<String>,
) -> (r: Result<Vec<String>, Stop>)
    ensures
        (OutV { shell: final(shell)@, used: final(used)@, result: texts_result(r) })
            == words_fields(
            words_view(words@),
            0,
            old(shell)@,
            old(used)@,
            answers@,
            texts(start@),
        ),
{
    let ghost all = words_view(words@);
    let ghost first = texts(start@);
    let ghost whole = words_fields(all, 0, shell@, used@, answers@, first);
    let mut fields = start;
    let mut i: usize = 0;
    while i < words.len()
        invariant
            i <= words@.len(),
            all == words_view(words@),
            first == texts(start@),
            whole == words_fields(all, 0, old(shell)@, old(used)@, answers@, first),
            whole == words_fields(all, i as int, shell@, used@, answers@, texts(fields@)),
        decreases words@.len() - i,
    {
        assert(all[i as int] == words@[i as int]@);
        let variants = brace_expand(&words[i]);
        fields = expand_variants(&variants, shell, answers, used, fields)?;
        i += 1;
    }
    Ok(fields)
}

/// The views of assigned values.
pub open spec fn pairs_view(s: Seq<(String, String)>) -> Seq<(Seq<char>, Seq<char>)> {
    s.map_values(|p: (String, String)| (p.0@, p.1@))
}

/// The view of assigned values or a stop.
pub open spec fn pairs_result(r: Result<Vec<(String, String)>, Stop>) -> Result<
    Seq<(Seq<char>, Seq<char>)>,
    StopV,
> {
    match r {
        Ok(v) => Ok(pairs_view(v@)),
        Err(e) => Err(e@),
    }
}

/// The values of assignments: they are neither split nor matched with files.
fn expand_assignments(
    assignments: &Vec<Assignment>,
    shell: &mut Shell,
    answers: &Answers,
    used: &mut Used,
) -> (r: Result<Vec<(String, String)>, Stop>)
    ensures
        (OutV { shell: final(shell)@, used: final(used)@, result: pairs_result(r) })
            == assigned_values(
            assignments_view(assignments@),
            0,
            old(shell)@,
            old(used)@,
            answers@,
            Seq::empty(),
        ),
{
    let ghost all = assignments_view(assignments@);
    let ghost none = Seq::<(Seq<char>, Seq<char>)>::empty();
    let ghost whole = assigned_values(all, 0, shell@, used@, answers@, none);
    let mut r: Vec<(String, String)> = Vec::new();
    let mut i: usize = 0;
    assert(pairs_view(r@) =~= none);
    while i < assignments.len()
        invariant
            i <= assignments@.len(),
            all == assignments_view(assignments@),
            none == Seq::<(Seq<char>, Seq<char>)>::empty(),
            whole == assigned_values(all, 0, old(shell)@, old(used)@, answers@, none),
            whole == assigned_values(all, i as int, shell@, used@, answers@, pairs_view(r@)),
        decreases assignments@.len() - i,
    {
        let ghost before = pairs_view(r@);
        assert(all[i as int] == assignments@[i as int]@);
        let value = expand_word_single(&assignments[i].value, shell, answers, used)?;
        r.push((assignments[i].name.clone(), value));
        assert(pairs_view(r@) =~= before.push((all[i as int].name, value@)));
        i += 1;
    }
    Ok(r)
}

/// A redirection whose target is expanded.
#[derive(Debug, PartialEq, Eq)]
pub struct ExpandedRedirect {
    pub fd: u32,
    pub operator: RedirectOperator,
    pub target: String,
}

impl View for ExpandedRedirect {
    type V = ExpandedRedirectV;

    open spec fn view(&self) -> ExpandedRedirectV {
        ExpandedRedirectV { fd: self.fd, operator: self.operator, target: self.target@ }
    }
}

/// The views of expanded redirections.
pub open spec fn redirs_view(s: Seq<ExpandedRedirect>) -> Seq<ExpandedRedirectV> {
    s.map_values(|r: ExpandedRedirect| r@)
}

/// The view of expanded redirections or a stop.
pub open spec fn redirs_result(r: Result<Vec<ExpandedRedirect>, Stop>) -> Result<
    Seq<ExpandedRedirectV>,
    StopV,
> {
    match r {
        Ok(v) => Ok(redirs_view(v@)),
        Err(e) => Err(e@),
    }
}

fn expand_redirects(
    redirects: &Vec<Redirect>,
    shell: &mut Shell,
    answers: &Answers,
    used: &mut Used,
) -> (r: Result<Vec<ExpandedRedirect>, Stop>)
    ensures
        (OutV { shell: final(shell)@, used: final(used)@, result: redirs_result(r) })
            == expanded_redirects(
            redirects_view(redirects@),
            0,
            old(shell)@,
            old(used)@,
            answers@,
            Seq::empty(),
        ),
{
    let ghost all = redirects_view(redirects@);
    let ghost none = Seq::<ExpandedRedirectV>::empty();
    let ghost whole = expanded_redirects(all, 0, shell@, used@, answers@, none);
    let mut r: Vec<ExpandedRedirect> = Vec::new();
    let mut i: usize = 0;
    assert(redirs_view(r@) =~= none);
    while i < redirects.len()
        invariant
            i <= redirects@.len(),
            all == redirects_view(redirects@),
            none == Seq::<ExpandedRedirectV>::empty(),
            whole == expanded_redirects(all, 0, old(shell)@, old(used)@, answers@, none),
            whole == expanded_redirects(all, i as int, shell@, used@, answers@, redirs_view(r@)),
        decreases redirects@.len() - i,
    {
        let ghost before = redirs_view(r@);
        assert(all[i as int] == redirects@[i as int]@);
        let redirect = &redirects[i];
        let target = expand_word_single(&redirect.target, shell, answers, used)?;
        let default_fd: u32 = match redirect.operator {
            RedirectOperator::Input => 0,
            _ => 1,
        };
        let fd: u32 = match redirect.fd {
            Some(fd) => fd,
            None => default_fd,
        };
        r.push(ExpandedRedirect { fd, operator: redirect.operator, target });
        assert(redirs_view(r@) =~= before.push(
            ExpandedRedirectV { fd, operator: redirect.operator, target: target@ },
        ));
        i += 1;
    }
    Ok(r)
}

/// A simple command whose words are expanded.
#[derive(Debug, PartialEq, Eq)]
pub struct Prepared {
    pub assignments: Vec<(String, String)>,
    pub fields: Option<Vec<String>>,
    pub redirects: Vec<ExpandedRedirect>,
}

impl View for Prepared {
    type V = PreparedV;

    open spec fn view(&self) -> PreparedV {
        PreparedV {
            assignments: pairs_view(self.assignments@),
            fields: match self.fields {
                Some(v) => Some(texts(v@)),
                None => None,
            },
            redirects: redirs_view(self.redirects@),
        }
    }
}

/// The view of a prepared command or a stop.
pub open spec fn prepared_result(r: Result<Prepared, Stop>) -> Result<PreparedV, StopV> {
    match r {
        Ok(p) => Ok(p@),
        Err(e) => Err(e@),
    }
}

/// Expands the words of a simple command.
pub fn prepare(cmd: &SimpleCommand, shell: &mut Shell, answers: &Answers) -> (r: Result<
    Prepared,
    Stop,
>)
    ensures
        ({
            let o = prepared(cmd@, old(shell)@, answers@);
            &&& final(shell)@ == o.shell
            &&& prepared_result(r) == o.result
        }),
{
    let mut used = Used::new();
    let assignments = expand_assignments(&cmd.assignments, shell, answers, &mut used)?;
    match &cmd.name {
        None => {
            let p = Prepared { assignments, fields: None, redirects: Vec::new() };
            assert(p@.redirects =~= Seq::empty());
            Ok(p)
        },
        Some(name) => {
            let mut name_words: Vec<Word> = Vec::new();
            name_words.push(name.clone());
            assert(words_view(name_words@) =~= seq![name@]);
            let start: Vec<String> = Vec::new();
            let names = expand_words_fields(&name_words, shell, answers, &mut used, start)?;
            assert(texts(names@).len() == names@.len());
            if names.len() == 0 {
                let p = Prepared { assignments, fields: Some(names), redirects: Vec::new() };
                assert(p@.redirects =~= Seq::empty());
                return Ok(p);
            }
            let fields = expand_words_fields(&cmd.args, shell, answers, &mut used, names)?;
            let redirects = expand_redirects(&cmd.redirects, shell, answers, &mut used)?;
            Ok(Prepared { assignments, fields: Some(fields), redirects })
        },
    }
}

/// The last redirection of standard output.
pub fn find_output(redirects: &Vec<ExpandedRedirect>) -> (r: Option<(String, bool)>)
    ensures
        match r {
            Some((target, append)) => last_output(redirs_view(redirects@)) == Some(
                (target@, append),
            ),
            None => last_output(redirs_view(redirects@)) is None,
        },
{
    let ghost all = redirs_view(redirects@);
    let mut i: usize = redirects.len();
    assert(all.take(i as int) =~= all);
    while i > 0
        invariant
            i <= redirects@.len(),
            all == redirs_view(redirects@),
            last_output(all) == last_output(all.take(i as int)),
        decreases i,
    {
        let redirect = &redirects[i - 1];
        assert(all.take(i as int).last() == redirect@);
        assert(all.take(i as int).drop_last() =~= all.take(i - 1));
        if redirect.fd == 1 {
            match redirect.operator {
                RedirectOperator::Output => {
                    return Some((redirect.target.clone(), false));
                },
                RedirectOperator::Append => {
                    return Some((redirect.target.clone(), true));
                },
                RedirectOperator::Input => {},
            }
        }
        i -= 1;
    }
    None
}

/// The last redirection of standard input.
pub fn find_input(redirects: &Vec<ExpandedRedirect>) -> (r: Option<String>)
    ensures
        match r {
            Some(target) => last_input(redirs_view(redirects@)) == Some(target@),
            None => last_input(redirs_view(redirects@)) is None,
        },
{
    let ghost all = redirs_view(redirects@);
    let mut i: usize = redirects.len();
    assert(all.take(i as int) =~= all);
    while i > 0
        invariant
            i <= redirects@.len(),
            all == redirs_view(redirects@),
            last_input(all) == last_input(all.take(i as int)),
        decreases i,
    {
        let redirect = &redirects[i - 1];
        assert(all.take(i as int).last() == redirect@);
        assert(all.take(i as int).drop_last() =~= all.take(i - 1));
        if redirect.fd == 0 {
            if let RedirectOperator::Input = redirect.operator {
                return Some(redirect.target.clone());
            }
        }
        i -= 1;
    }
    None
}

/// The view of an answer or a stop.
pub open spec fn bool_result(r: Result<bool, Stop>) -> Result<bool, StopV> {
    match r {
        Ok(b) => Ok(b),
        Err(e) => Err(e@),
    }
}

/// Whether one of the patterns of a `case` arm matches `text`.
pub fn match_patterns(
    patterns: &Vec<Word>,
    text: &str,
    shell: &mut Shell,
    answers: &Answers,
    used: &mut Used,
) -> (r: Result<bool, Stop>)
    ensures
        (OutV { shell: final(shell)@, used: final(used)@, result: bool_result(r) })
            == pattern_matches(
            words_view(patterns@),
            0,
            text@,
            old(shell)@,
            old(used)@,
            answers@,
        ),
{
    let ghost all = words_view(patterns@);
    let ghost whole = pattern_matches(all, 0, text@, shell@, used@, answers@);
    let mut i: usize = 0;
    while i < patterns.len()
        invariant
            i <= patterns@.len(),
            all == words_view(patterns@),
            whole == pattern_matches(all, 0, text@, old(shell)@, old(used)@, answers@),
            whole == pattern_matches(all, i as int, text@, shell@, used@, answers@),
        decreases patterns@.len() - i,
    {
        assert(all[i as int] == patterns@[i as int]@);
        let pattern = expand_word_as_pattern(&patterns[i], shell, answers, used)?;
        if glob_match(pattern.as_str(), text) {
            return Ok(true);
        }
        i += 1;
    }
    Ok(false)
}

// ---- laws ---------------------------------------------------------------------------------------

proof fn lemma_variants_fields(
    variants: Seq<WordV>,
    k: int,
    sh: ShellV,
    used: UsedV,
    a: AnswersV,
    b: AnswersV,
    acc: Seq<Seq<char>>,
)
    requires
        extends(a, b),
    ensures
        sound(
            sh,
            variants_fields(variants, k, sh, used, a, acc),
            variants_fields(variants, k, sh, used, b, acc),
        ),
    decreases variants.len() - k,
{
    if 0 <= k < variants.len() {
        law_expansion_can_be_resumed(variants[k], sh, used, a, b);
        let o = word_fields(variants[k], sh, used, a);
        if let Ok(fields) = o.result {
            lemma_variants_fields(variants, k + 1, o.shell, o.used, a, b, acc + fields);
        }
    }
}

/// What holds of the expansion of a word holds of that of a list of words.
pub proof fn law_words_can_be_resumed(
    words: Seq<WordV>,
    i: int,
    sh: ShellV,
    used: UsedV,
    a: AnswersV,
    b: AnswersV,
    acc: Seq<Seq<char>>,
)
    requires
        extends(a, b),
    ensures
        sound(
            sh,
            words_fields(words, i, sh, used, a, acc),
            words_fields(words, i, sh, used, b, acc),
        ),
    decreases words.len() - i,
{
    if 0 <= i < words.len() {
        let variants = words_from(words[i], 0);
        lemma_variants_fields(variants, 0, sh, used, a, b, acc);
        let o = variants_fields(variants, 0, sh, used, a, acc);
        if let Ok(fields) = o.result {
            law_words_can_be_resumed(words, i + 1, o.shell, o.used, a, b, fields);
        }
    }
}

proof fn lemma_assigned_values(
    assignments: Seq<AssignmentV>,
    i: int,
    sh: ShellV,
    used: UsedV,
    a: AnswersV,
    b: AnswersV,
    acc: Seq<(Seq<char>, Seq<char>)>,
)
    requires
        extends(a, b),
    ensures
        sound(
            sh,
            assigned_values(assignments, i, sh, used, a, acc),
            assigned_values(assignments, i, sh, used, b, acc),
        ),
    decreases assignments.len() - i,
{
    if 0 <= i < assignments.len() {
        law_expansion_can_be_resumed(assignments[i].value, sh, used, a, b);
        let o = word_text(assignments[i].value, sh, used, a);
        if let Ok(v) = o.result {
            lemma_assigned_values(
                assignments,
                i + 1,
                o.shell,
                o.used,
                a,
                b,
                acc.push((assignments[i].name, v)),
            );
        }
    }
}

proof fn lemma_expanded_redirects(
    redirects: Seq<RedirectV>,
    i: int,
    sh: ShellV,
    used: UsedV,
    a: AnswersV,
    b: AnswersV,
    acc: Seq<ExpandedRedirectV>,
)
    requires
        extends(a, b),
    ensures
        sound(
            sh,
            expanded_redirects(redirects, i, sh, used, a, acc),
            expanded_redirects(redirects, i, sh, used, b, acc),
        ),
    decreases redirects.len() - i,
{
    if 0 <= i < redirects.len() {
        let r = redirects[i];
        law_expansion_can_be_resumed(r.target, sh, used, a, b);
        let o = word_text(r.target, sh, used, a);
        if let Ok(target) = o.result {
            lemma_expanded_redirects(
                redirects,
                i + 1,
                o.shell,
                o.used,
                a,
                b,
                acc.push(
                    ExpandedRedirectV {
                        fd: redirected_fd(r.fd, r.operator),
                        operator: r.operator,
                        target,
                    },
                ),
            );
        }
    }
}

/// What holds of the expansion of a word holds of that of a simple command: it
/// changes only variables of the shell, and can be started again with the
/// answer that it stopped for.
pub proof fn law_preparation_can_be_resumed(
    cmd: SimpleCommandV,
    sh: ShellV,
    a: AnswersV,
    b: AnswersV,
)
    requires
        extends(a, b),
    ensures
        sound(sh, prepared(cmd, sh, a), prepared(cmd, sh, b)),
{
    lemma_assigned_values(cmd.assignments, 0, sh, unused(), a, b, Seq::empty());
    let o = assigned_values(cmd.assignments, 0, sh, unused(), a, Seq::empty());
    if let Ok(assignments) = o.result {
        if let Some(name) = cmd.name {
            law_words_can_be_resumed(seq![name], 0, o.shell, o.used, a, b, Seq::empty());
            let n = words_fields(seq![name], 0, o.shell, o.used, a, Seq::empty());
            if let Ok(names) = n.result {
                law_words_can_be_resumed(cmd.args, 0, n.shell, n.used, a, b, names);
                let p = words_fields(cmd.args, 0, n.shell, n.used, a, names);
                if let Ok(fields) = p.result {
                    lemma_expanded_redirects(
                        cmd.redirects,
                        0,
                        p.shell,
                        p.used,
                        a,
                        b,
                        Seq::empty(),
                    );
                }
            }
        }
    }
}

/// What holds of the expansion of a word holds of the patterns of a `case`.
pub proof fn law_patterns_can_be_resumed(
    patterns: Seq<WordV>,
    i: int,
    text: Seq<char>,
    sh: ShellV,
    used: UsedV,
    a: AnswersV,
    b: AnswersV,
)
    requires
        extends(a, b),
    ensures
        sound(
            sh,
            pattern_matches(patterns, i, text, sh, used, a),
            pattern_matches(patterns, i, text, sh, used, b),
        ),
    decreases patterns.len() - i,
{
    if 0 <= i < patterns.len() {
        law_expansion_can_be_resumed(patterns[i], sh, used, a, b);
        let o = word_pattern(patterns[i], sh, used, a);
        if let Ok(p) = o.result {
            law_patterns_can_be_resumed(patterns, i + 1, text, o.shell, o.used, a, b);
        }
    }
}

} // verus!
