//! Console commands: registration, resolution of typed input, argument
//! policy and completion.

use vstd::prelude::*;

use crate::error::HyperError;
use crate::text::{chars_of, is_whitespace, is_ws, join, join_strings, lemma_seq_lt_irreflexive, lemma_seq_lt_total, lemma_seq_lt_transitive, lemma_views_push, owned, push_str, seq_lt, split_whitespace_text, starts_with, text_eq, text_lt, text_starts_with, views, words};

verus! {

/// Where a command may be invoked.
#[derive(Clone, Copy, PartialEq, Eq, Structural)]
pub enum CommandScope {
    /// The interactive console.
    Console,
    /// Kept for older registrations; the same as `Console`.
    Both,
}

impl CommandScope {
    /// Whether the interactive console may invoke the command.
    pub fn allows_console(self) -> (r: bool)
        ensures
            r,
    {
        match self {
            CommandScope::Console => true,
            CommandScope::Both => true,
        }
    }
}

/// What a command's arguments are completed from.
#[derive(Clone, Copy, PartialEq, Eq, Structural)]
pub enum CompletionKind {
    /// No argument completion.
    NoCompletion,
    /// The configured versions.
    Version,
}

/// A command's argument policy.
#[derive(Clone, Copy, PartialEq, Eq, Structural)]
pub enum CommandArguments {
    /// The command takes no arguments.
    NoArguments,
    /// The command parses its arguments itself.
    Any,
}

/// Supplies argument completion candidates.
pub trait CompletionProvider {
    /// The candidates this provider offers for a kind and a typed prefix.
    spec fn offers(&self, kind: CompletionKind, prefix: Seq<char>) -> Seq<Seq<char>>;

    /// Candidates of the given kind for the typed prefix.
    fn complete(&self, kind: CompletionKind, prefix: &str) -> (r: Vec<String>)
        ensures
            views(r@) == self.offers(kind, prefix@),
    ;
}

/// A registered command; `H` is its handler.
pub struct RegisteredCommand<H> {
    /// Command path, such as `version switch`.
    pub path: Vec<String>,
    /// Usage shown in help, such as `version switch <version>`.
    pub usage: String,
    /// One-line description.
    pub description: String,
    /// Where it may be invoked.
    pub scope: CommandScope,
    /// How its arguments are completed.
    pub completion: CompletionKind,
    /// Its argument policy.
    pub arguments: CommandArguments,
    /// Whether help lists it.
    pub visible: bool,
    /// The handler that runs it.
    pub handler: H,
}

/// What a command printed: a short summary and the rendered text.
pub struct CommandOutput {
    /// Short summary, such as `active=v2`.
    pub summary: String,
    /// Text shown on the console.
    pub rendered: String,
}

/// The registered commands.
pub struct CommandRegistry<H> {
    /// Commands in registration order.
    pub commands: Vec<RegisteredCommand<H>>,
}

/// What a handler runs with: the registry and the caller's state.
pub struct CommandContext<'a, H, S> {
    /// The registry the command was resolved in.
    pub registry: &'a CommandRegistry<H>,
    /// The caller's state.
    pub state: &'a S,
}

impl<'a, H, S> CommandContext<'a, H, S> {
    /// The caller's state.
    pub fn state(&self) -> (s: &'a S)
        ensures
            s == self.state,
    {
        self.state
    }
}

/// A command's path as text.
pub open spec fn path_of<H>(c: RegisteredCommand<H>) -> Seq<Seq<char>> {
    views(c.path@)
}

/// Whether `p` is a prefix of `q`.
pub open spec fn is_prefix(p: Seq<Seq<char>>, q: Seq<Seq<char>>) -> bool {
    p.len() <= q.len() && forall|i: int| 0 <= i < p.len() ==> p[i] == q[i]
}

/// Whether the command at `i` is the one typed `parts` resolve to: its path
/// starts the input, no matching command has a longer path, and no earlier
/// one has a path as long.
pub open spec fn resolves<H>(cmds: Seq<RegisteredCommand<H>>, parts: Seq<Seq<char>>, i: int) -> bool {
    &&& 0 <= i < cmds.len()
    &&& is_prefix(path_of(cmds[i]), parts)
    &&& forall|j: int| 0 <= j < cmds.len() && is_prefix(path_of(#[trigger] cmds[j]), parts) ==> path_of(cmds[j]).len() <= path_of(cmds[i]).len()
        && (j < i ==> path_of(cmds[j]).len() < path_of(cmds[i]).len())
}

/// Whether some command's path starts the input.
pub open spec fn any_prefix<H>(cmds: Seq<RegisteredCommand<H>>, parts: Seq<Seq<char>>) -> bool {
    exists|j: int| 0 <= j < cmds.len() && is_prefix(path_of(#[trigger] cmds[j]), parts)
}

/// A resolved command and the arguments after its path.
pub struct Dispatch {
    /// Position of the command in the registry.
    pub index: usize,
    /// The words after the command's path.
    pub args: Vec<String>,
}

fn same_words(a: &Vec<String>, b: &Vec<String>, n: usize) -> (r: bool)
    requires
        n <= a@.len(),
        n <= b@.len(),
    ensures
        r == forall|i: int| 0 <= i < n ==> a@[i]@ == b@[i]@,
{
    let mut i: usize = 0;
    while i < n
        invariant
            i <= n,
            n <= a@.len(),
            n <= b@.len(),
            forall|k: int| 0 <= k < i ==> a@[k]@ == b@[k]@,
        decreases n - i,
    {
        if !text_eq(a[i].as_str(), b[i].as_str()) {
            return false;
        }
        i = i + 1;
    }
    true
}

/// Splits input into words; blank input is refused.
pub fn parse_parts(command: &str) -> (r: Result<Vec<String>, HyperError>)
    ensures
        r is Ok <==> words(command@).len() > 0,
        r matches Ok(v) ==> views(v@) == words(command@),
        r matches Err(e) ==> e.message@ == "empty command"@,
{
    let parts = split_whitespace_text(command);
    if parts.len() == 0 {
        return Err(HyperError::new("empty command"));
    }
    Ok(parts)
}

/// Applies a command's argument policy.
pub fn validate_arguments<H>(command: &RegisteredCommand<H>, args: &Vec<String>) -> (r: Result<(), HyperError>)
    ensures
        r is Ok <==> !(command.arguments == CommandArguments::NoArguments && args@.len() > 0),
        r matches Err(e) ==> e.message@ == "command does not accept arguments"@,
{
    if command.arguments == CommandArguments::NoArguments && args.len() > 0 {
        return Err(HyperError::new("command does not accept arguments"));
    }
    Ok(())
}

/// The error text for input that names no command.
pub open spec fn unknown_command_message(parts: Seq<Seq<char>>) -> Seq<char> {
    "unknown command: "@ + join(parts, " "@)
}

impl<H> CommandRegistry<H> {
    /// A registry of the given commands.
    pub fn new(commands: Vec<RegisteredCommand<H>>) -> (r: CommandRegistry<H>)
        ensures
            r.commands@ == commands@,
    {
        CommandRegistry { commands }
    }

    /// A registry of commands built at run time.
    pub fn from_commands(commands: Vec<RegisteredCommand<H>>) -> (r: CommandRegistry<H>)
        ensures
            r.commands@ == commands@,
    {
        CommandRegistry { commands }
    }

    /// The registered commands.
    pub fn commands(&self) -> (r: &[RegisteredCommand<H>])
        ensures
            r@ == self.commands@,
    {
        self.commands.as_slice()
    }

    /// The command typed words resolve to: the longest matching path, the
    /// earliest among equally long ones.
    pub fn resolve(&self, parts: &Vec<String>, scope: CommandScope) -> (r: Result<usize, HyperError>)
        ensures
            r is Ok <==> any_prefix(self.commands@, views(parts@)),
            r matches Ok(i) ==> resolves(self.commands@, views(parts@), i as int),
            r matches Err(e) ==> e.message@ == unknown_command_message(views(parts@)),
    {
        let ghost ps = views(parts@);
        let mut matched: Option<usize> = None;
        let mut i: usize = 0;
        while i < self.commands.len()
            invariant
                i <= self.commands@.len(),
                ps == views(parts@),
                matched is None <==> !exists|j: int| 0 <= j < i && is_prefix(path_of(#[trigger] self.commands@[j]), ps),
                matched matches Some(m) ==> m < i && resolves(self.commands@.take(i as int), ps, m as int),
            decreases self.commands.len() - i,
        {
            let command = &self.commands[i];
            if scope == CommandScope::Console && !command.scope.allows_console() {
                i = i + 1;
                continue;
            }
            proof {
                assert(self.commands@.take(i + 1)[i as int] == self.commands@[i as int]);
                assert forall|j: int| 0 <= j < i implies #[trigger] self.commands@.take(i + 1)[j] == self.commands@.take(i as int)[j] by {}
            }
            if command.path.len() <= parts.len() && same_words(&command.path, parts, command.path.len()) {
                proof {
                    assert(is_prefix(path_of(self.commands@[i as int]), ps));
                }
                matched = match matched {
                    Some(previous) => if self.commands[previous].path.len() >= command.path.len() {
                        Some(previous)
                    } else {
                        Some(i)
                    },
                    None => Some(i),
                };
            } else {
                proof {
                    assert(!is_prefix(path_of(self.commands@[i as int]), ps)) by {
                        if is_prefix(path_of(self.commands@[i as int]), ps) {
                            assert forall|k: int| 0 <= k < command.path@.len() implies command.path@[k]@ == parts@[k]@ by {
                                assert(path_of(self.commands@[i as int])[k] == ps[k]);
                            }
                        }
                    }
                }
            }
            i = i + 1;
        }
        assert(self.commands@.take(self.commands@.len() as int) =~= self.commands@);
        match matched {
            Some(m) => Ok(m),
            None => {
                let mut msg = owned("unknown command: ");
                push_str(&mut msg, join_strings(parts, " ").as_str());
                Err(HyperError::from_message(msg))
            },
        }
    }

    /// Resolves typed input to a command and its arguments, applying the
    /// command's argument policy.
    pub fn dispatch(&self, command: &str, scope: CommandScope) -> (r: Result<Dispatch, HyperError>)
        ensures
            ({
                let ws = words(command@);
                if ws.len() == 0 {
                    r matches Err(e) && e.message@ == "empty command"@
                } else if !any_prefix(self.commands@, ws) {
                    r matches Err(e) && e.message@ == unknown_command_message(ws)
                } else {
                    exists|i: int| #[trigger] resolves(self.commands@, ws, i) && {
                        let c = self.commands@[i];
                        let args = ws.skip(path_of(c).len() as int);
                        if c.arguments == CommandArguments::NoArguments && args.len() > 0 {
                            r matches Err(e) && e.message@ == "command does not accept arguments"@
                        } else {
                            r matches Ok(d) && d.index == i && views(d.args@) == args
                        }
                    }
                }
            }),
    {
        let parts = match parse_parts(command) {
            Ok(p) => p,
            Err(e) => return Err(e),
        };
        let index = match self.resolve(&parts, scope) {
            Ok(i) => i,
            Err(e) => return Err(e),
        };
        let n = self.commands[index].path.len();
        let mut args: Vec<String> = Vec::new();
        let mut k: usize = n;
        while k < parts.len()
            invariant
                n <= k <= parts@.len(),
                views(args@) == views(parts@).subrange(n as int, k as int),
            decreases parts.len() - k,
        {
            let w = parts[k].clone();
            let ghost before = args@;
            args.push(w);
            proof {
                lemma_views_push(before, w);
                assert(views(parts@).subrange(n as int, k + 1) =~= views(parts@).subrange(n as int, k as int).push(parts@[k as int]@));
            }
            k = k + 1;
        }
        assert(views(parts@).subrange(n as int, parts@.len() as int) =~= views(parts@).skip(n as int));
        match validate_arguments(&self.commands[index], &args) {
            Ok(()) => {},
            Err(e) => return Err(e),
        }
        Ok(Dispatch { index, args })
    }
}

// ---------------------------------------------------------------------------
// Completion
// ---------------------------------------------------------------------------

/// Whether typed input ends in whitespace (completion then starts a new word).
pub open spec fn ends_in_space(input: Seq<char>) -> bool {
    input.len() > 0 && is_ws(input.last())
}

/// The complete words before the word being completed.
pub open spec fn completed_words(input: Seq<char>) -> Seq<Seq<char>> {
    let ws = words(input);
    if ends_in_space(input) || ws.len() == 0 {
        ws
    } else {
        ws.drop_last()
    }
}

/// The word being completed.
pub open spec fn completion_prefix(input: Seq<char>) -> Seq<char> {
    let ws = words(input);
    if ends_in_space(input) || ws.len() == 0 {
        Seq::empty()
    } else {
        ws.last()
    }
}

/// Whether `x` is a next path word offered for `input`.
pub open spec fn path_candidate<H>(cmds: Seq<RegisteredCommand<H>>, input: Seq<char>, x: Seq<char>) -> bool {
    let base = completed_words(input);
    exists|j: int| 0 <= j < cmds.len() && {
        let p = path_of(#[trigger] cmds[j]);
        p.len() > base.len() && is_prefix(base, p) && p[base.len() as int] == x && starts_with(x, completion_prefix(input))
    }
}

/// The first command whose path is exactly `base`, if any.
pub open spec fn exact_command<H>(cmds: Seq<RegisteredCommand<H>>, base: Seq<Seq<char>>) -> Option<int> {
    if exists|j: int| 0 <= j < cmds.len() && path_of(#[trigger] cmds[j]) == base {
        Some(choose|j: int| 0 <= j < cmds.len() && path_of(#[trigger] cmds[j]) == base
            && forall|k: int| 0 <= k < j ==> path_of(#[trigger] cmds[k]) != base)
    } else {
        None
    }
}

/// Strictly increasing texts.
pub open spec fn strictly_sorted(s: Seq<Seq<char>>) -> bool {
    forall|i: int, j: int| 0 <= i < j < s.len() ==> seq_lt(#[trigger] s[i], #[trigger] s[j])
}

/// Inserts a text into a strictly sorted vector unless it is already there.
fn insert_sorted(v: &mut Vec<String>, x: String)
    requires
        strictly_sorted(views(old(v)@)),
    ensures
        strictly_sorted(views(final(v)@)),
        views(final(v)@).to_set() == views(old(v)@).to_set().insert(x@),
{
    let ghost s = views(v@);
    let mut p: usize = 0;
    while p < v.len() && text_lt(v[p].as_str(), x.as_str())
        invariant
            p <= v@.len(),
            s == views(v@),
            forall|j: int| 0 <= j < p ==> seq_lt(#[trigger] s[j], x@),
        decreases v.len() - p,
    {
        p = p + 1;
    }
    if p < v.len() && text_eq(v[p].as_str(), x.as_str()) {
        assert(views(v@).to_set() =~= s.to_set().insert(x@)) by {
            assert(s[p as int] == x@);
        }
        return;
    }
    proof {
        if p < s.len() {
            assert(!seq_lt(s[p as int], x@));
            assert(s[p as int] != x@);
            lemma_seq_lt_total(s[p as int], x@);
        }
    }
    v.insert(p, x);
    proof {
        let t = views(v@);
        assert(t =~= s.insert(p as int, x@));
        assert forall|i: int, j: int| 0 <= i < j < t.len() implies seq_lt(#[trigger] t[i], #[trigger] t[j]) by {
            if j < p {
            } else if i < p && j == p {
            } else if i < p && j > p {
                assert(t[j] == s[j - 1]);
                if j - 1 > p {
                    lemma_seq_lt_transitive(s[i], s[p as int], s[j - 1]);
                }
            } else if i == p {
                assert(t[j] == s[j - 1]);
                if j - 1 > p {
                    lemma_seq_lt_transitive(x@, s[p as int], s[j - 1]);
                }
            } else {
                assert(t[i] == s[i - 1] && t[j] == s[j - 1]);
            }
        }
        assert(t.to_set() =~= s.to_set().insert(x@)) by {
            assert forall|y: Seq<char>| t.to_set().contains(y) <==> s.to_set().insert(x@).contains(y) by {
                if t.to_set().contains(y) {
                    let k = choose|k: int| 0 <= k < t.len() && t[k] == y;
                    if k < p {
                        assert(s[k] == y);
                    } else if k > p {
                        assert(s[k - 1] == y);
                    }
                }
                if s.to_set().contains(y) {
                    let k = choose|k: int| 0 <= k < s.len() && s[k] == y;
                    if k < p {
                        assert(t[k] == y);
                    } else {
                        assert(t[k + 1] == y);
                    }
                }
                if y == x@ {
                    assert(t[p as int] == y);
                }
            }
        }
    }
}

impl<H> CommandRegistry<H> {
    /// The words before the one being completed, and that word.
    fn split_input(input: &str) -> (r: (Vec<String>, String))
        ensures
            views(r.0@) == completed_words(input@),
            r.1@ == completion_prefix(input@),
    {
        let chars = chars_of(input);
        let ends = chars.len() > 0 && is_whitespace(chars[chars.len() - 1]);
        let mut tokens = split_whitespace_text(input);
        if ends || tokens.len() == 0 {
            (tokens, String::new())
        } else {
            let ghost before = views(tokens@);
            let last = tokens.pop().unwrap();
            assert(views(tokens@) =~= before.drop_last());
            (tokens, last)
        }
    }

    /// The first command whose path is exactly `base`.
    fn find_exact(&self, base: &Vec<String>) -> (r: Option<usize>)
        ensures
            r matches Some(i) ==> i < self.commands@.len(),
            match r {
                Some(i) => exact_command(self.commands@, views(base@)) == Some(i as int),
                None => exact_command(self.commands@, views(base@)) is None,
            },
    {
        let ghost b = views(base@);
        let mut i: usize = 0;
        while i < self.commands.len()
            invariant
                i <= self.commands@.len(),
                b == views(base@),
                forall|k: int| 0 <= k < i ==> path_of(#[trigger] self.commands@[k]) != b,
            decreases self.commands.len() - i,
        {
            let c = &self.commands[i];
            if c.path.len() == base.len() && same_words(&c.path, base, base.len()) && c.scope.allows_console() {
                proof {
                    assert(path_of(self.commands@[i as int]) =~= b);
                    let j = choose|j: int| 0 <= j < self.commands@.len() && path_of(#[trigger] self.commands@[j]) == b
                        && forall|k: int| 0 <= k < j ==> path_of(#[trigger] self.commands@[k]) != b;
                    if j < i {
                    } else if j > i {
                        assert(path_of(self.commands@[i as int]) != b);
                    }
                }
                return Some(i);
            }
            proof {
                if path_of(self.commands@[i as int]) == b {
                    assert forall|k: int| 0 <= k < b.len() implies c.path@[k]@ == base@[k]@ by {
                        assert(path_of(self.commands@[i as int])[k] == b[k]);
                    }
                }
            }
            i = i + 1;
        }
        None
    }

    /// What argument completion asks the provider for: the kind of the
    /// command the completed words name exactly, and the word being typed.
    pub fn completion_request(&self, input: &str) -> (r: Option<(CompletionKind, String)>)
        ensures
            match exact_command(self.commands@, completed_words(input@)) {
                Some(i) => r matches Some(q) && q.0 == self.commands@[i].completion && q.1@ == completion_prefix(input@),
                None => r is None,
            },
    {
        let (base, prefix) = Self::split_input(input);
        match self.find_exact(&base) {
            Some(i) => Some((self.commands[i].completion, prefix)),
            None => None,
        }
    }

    /// Completion candidates for typed input, sorted and without repeats: the
    /// next words of matching command paths, plus `provided` (the provider's
    /// candidates) when the typed words name a command exactly.
    pub fn complete_with(&self, input: &str, provided: &Vec<String>) -> (r: Vec<String>)
        ensures
            strictly_sorted(views(r@)),
            forall|x: Seq<char>| #[trigger] views(r@).contains(x) <==> path_candidate(self.commands@, input@, x)
                || (exact_command(self.commands@, completed_words(input@)) is Some && views(provided@).contains(x)),
    {
        let (base, prefix) = Self::split_input(input);
        let ghost b = views(base@);
        let ghost cmds = self.commands@;
        let mut values: Vec<String> = Vec::new();
        let mut i: usize = 0;
        while i < self.commands.len()
            invariant
                i <= self.commands@.len(),
                cmds == self.commands@,
                b == views(base@),
                b == completed_words(input@),
                prefix@ == completion_prefix(input@),
                strictly_sorted(views(values@)),
                forall|x: Seq<char>| #[trigger] views(values@).contains(x) <==> exists|j: int| 0 <= j < i && {
                    let p = path_of(#[trigger] cmds[j]);
                    p.len() > b.len() && is_prefix(b, p) && p[b.len() as int] == x && starts_with(x, prefix@)
                },
            decreases self.commands.len() - i,
        {
            let c = &self.commands[i];
            let ghost before = views(values@);
            if c.scope.allows_console() && c.path.len() > base.len() && same_words(&base, &c.path, base.len()) {
                let candidate = &c.path[base.len()];
                if text_starts_with(candidate.as_str(), prefix.as_str()) {
                    insert_sorted(&mut values, candidate.clone());
                }
            }
            proof {
                assert forall|x: Seq<char>| #[trigger] views(values@).contains(x) <==> exists|j: int| 0 <= j < i + 1 && {
                    let p = path_of(#[trigger] cmds[j]);
                    p.len() > b.len() && is_prefix(b, p) && p[b.len() as int] == x && starts_with(x, prefix@)
                } by {
                    let p = path_of(cmds[i as int]);
                    let here = p.len() > b.len() && is_prefix(b, p) && p[b.len() as int] == x && starts_with(x, prefix@);
                    if here {
                        assert forall|k: int| 0 <= k < b.len() implies base@[k]@ == c.path@[k]@ by {
                            assert(b[k] == base@[k]@);
                            assert(p[k] == c.path@[k]@);
                        }
                    }
                    if views(values@).contains(x) && !before.contains(x) {
                        assert(views(values@).to_set().contains(x));
                    }
                    if before.contains(x) {
                        assert(before.to_set().contains(x));
                        assert(views(values@).to_set().contains(x));
                    }
                    if here {
                        assert(views(values@).to_set().contains(x));
                    }
                }
            }
            i = i + 1;
        }
        if self.find_exact(&base).is_some() {
            let mut k: usize = 0;
            let ghost paths = views(values@);
            while k < provided.len()
                invariant
                    k <= provided@.len(),
                    strictly_sorted(views(values@)),
                    forall|x: Seq<char>| #[trigger] views(values@).contains(x) <==> paths.contains(x)
                        || views(provided@).take(k as int).contains(x),
                decreases provided.len() - k,
            {
                let ghost before = views(values@);
                insert_sorted(&mut values, provided[k].clone());
                proof {
                    assert forall|x: Seq<char>| #[trigger] views(values@).contains(x) <==> paths.contains(x)
                        || views(provided@).take(k + 1).contains(x) by {
                        assert(views(provided@).take(k + 1) =~= views(provided@).take(k as int).push(provided@[k as int]@));
                        if views(values@).contains(x) {
                            assert(views(values@).to_set().contains(x));
                        }
                        if before.contains(x) {
                            assert(before.to_set().contains(x));
                            assert(views(values@).to_set().contains(x));
                        }
                        if x == provided@[k as int]@ {
                            assert(views(values@).to_set().contains(x));
                            assert(views(provided@).take(k + 1)[k as int] == x);
                        }
                        if views(values@).to_set().contains(x) && x != provided@[k as int]@ {
                            assert(before.to_set().contains(x));
                            assert(before.contains(x));
                        }
                        if views(provided@).take(k as int).contains(x) {
                            let a = choose|a: int| 0 <= a < k && #[trigger] views(provided@).take(k as int)[a] == x;
                            assert(views(provided@).take(k + 1)[a] == x);
                        }
                        if views(provided@).take(k + 1).contains(x) && x != provided@[k as int]@ {
                            let a = choose|a: int| 0 <= a < k + 1 && #[trigger] views(provided@).take(k + 1)[a] == x;
                            assert(views(provided@).take(k as int)[a] == x);
                        }
                    }
                }
                k = k + 1;
            }
            assert(views(provided@).take(provided@.len() as int) =~= views(provided@));
        }
        values
    }

    /// Completion candidates for typed input, sorted and without repeats;
    /// argument candidates come from `provider` when the typed words name a
    /// command exactly.
    pub fn complete<P: CompletionProvider>(&self, input: &str, provider: &P) -> (r: Vec<String>)
        ensures
            strictly_sorted(views(r@)),
            forall|x: Seq<char>| #[trigger] views(r@).contains(x) <==> path_candidate(self.commands@, input@, x)
                || (exact_command(self.commands@, completed_words(input@)) matches Some(i)
                    && provider.offers(self.commands@[i].completion, completion_prefix(input@)).contains(x)),
    {
        let provided = match self.completion_request(input) {
            Some((kind, prefix)) => provider.complete(kind, prefix.as_str()),
            None => Vec::new(),
        };
        self.complete_with(input, &provided)
    }
}

} // verus!
