use vstd::prelude::*;
use vstd::string::*;

verus! {

/// A command tree: one leaf that starts a process, or a node that changes
/// the context of its child, or that joins two children.
#[derive(Debug)]
pub enum Node {
    Single(Single),
    Env(Env),
    ClearEnv(ClearEnv),
    ExceptEnv(ExceptEnv),
    ExceptEnvs(ExceptEnvs),
    Dir(Dir),
    Input(Input),
    Pipe(Pipe),
    Then(Then),
    And(And),
    Or(Or),
}

/// Holds a single command to be run: a program followed by its arguments.
#[derive(Debug)]
pub struct Single {
    words: Vec<String>,
}

/// Sets one variable in the environment the command runs in.
#[derive(Debug)]
pub struct Env {
    pub key: String,
    pub value: String,
    pub on: Box<Node>,
}

/// Starts the command from an empty environment instead of the inherited one.
#[derive(Debug)]
pub struct ClearEnv {
    pub on: Box<Node>,
}

/// Removes one variable from the inherited environment.
#[derive(Debug)]
pub struct ExceptEnv {
    pub key: String,
    pub on: Box<Node>,
}

/// Removes several variables from the inherited environment.
#[derive(Debug)]
pub struct ExceptEnvs {
    pub keys: Vec<String>,
    pub on: Box<Node>,
}

/// Sets the working directory of the command.
#[derive(Debug)]
pub struct Dir {
    pub path: String,
    pub on: Box<Node>,
}

/// Text written to the standard input of the command.
#[derive(Debug)]
pub struct Input {
    pub input: String,
    pub on: Box<Node>,
}

/// Feeds the standard output of one command into the next.
#[derive(Debug)]
pub struct Pipe {
    pub first: Box<Node>,
    pub second: Box<Node>,
}

/// Executes one command, then another.
#[derive(Debug)]
pub struct Then {
    pub first: Box<Node>,
    pub second: Box<Node>,
}

/// Executes one command and, if it succeeded, the other.
#[derive(Debug)]
pub struct And {
    pub first: Box<Node>,
    pub second: Box<Node>,
}

/// Executes one command and, if it failed, the other.
#[derive(Debug)]
pub struct Or {
    pub first: Box<Node>,
    pub second: Box<Node>,
}

pub open spec fn strs(v: Seq<String>) -> Seq<Seq<char>> {
    v.map_values(|s: String| s@)
}

/// Words separated by single spaces.
pub open spec fn joined(words: Seq<Seq<char>>) -> Seq<char>
    decreases words.len(),
{
    if words.len() == 0 {
        seq![]
    } else if words.len() == 1 {
        words[0]
    } else {
        joined(words.drop_last()) + " "@ + words.last()
    }
}

/// Appends each of `words`, a space between two of them.
fn append_joined(out: &mut String, words: &Vec<String>)
    ensures
        final(out)@ == old(out)@ + joined(strs(words@)),
{
    let ghost start = out@;
    let mut i: usize = 0;
    while i < words.len()
        invariant
            i <= words@.len(),
            out@ == start + joined(strs(words@).take(i as int)),
        decreases words@.len() - i,
    {
        let ghost prev = out@;
        let ghost w = strs(words@).take(i + 1);
        proof {
            assert(w.drop_last() =~= strs(words@).take(i as int));
        }
        if i > 0 {
            out.append(" ");
        }
        out.append(words[i].as_str());
        proof {
            if i == 0 {
                assert(joined(strs(words@).take(i as int)) =~= Seq::<char>::empty());
                assert(out@ =~= start + joined(w));
            } else {
                assert(out@ =~= start + joined(w));
            }
        }
        i = i + 1;
    }
    proof {
        assert(strs(words@).take(i as int) =~= strs(words@));
    }
}

impl Single {
    #[verifier::type_invariant]
    spec fn inv(&self) -> bool {
        self.words.len() > 0
    }

    /// The program name followed by the arguments.
    pub closed spec fn argv(&self) -> Seq<Seq<char>> {
        strs(self.words@)
    }

    /// Creates a command that runs `command` with no arguments.
    pub fn new(command: &str) -> (r: Single)
        ensures
            r.argv() == seq![command@],
    {
        let words = vec![command.to_owned()];
        proof {
            assert(strs(words@) =~= seq![command@]);
        }
        Single { words }
    }

    /// Adds an argument to the command.
    pub fn a(self, argument: &str) -> (r: Single)
        ensures
            r.argv() == self.argv().push(argument@),
    {
        proof {
            use_type_invariant(&self);
        }
        let mut words = self.words;
        let ghost before = words@;
        words.push(argument.to_owned());
        proof {
            assert(strs(words@) =~= strs(before).push(argument@));
        }
        Single { words }
    }

    /// Adds several arguments, in order.
    pub fn args(self, arguments: &[&str]) -> (r: Single)
        ensures
            r.argv() == self.argv() + arguments@.map_values(|s: &str| s@),
    {
        let mut r = self;
        let mut i: usize = 0;
        while i < arguments.len()
            invariant
                i <= arguments@.len(),
                r.argv() == self.argv() + arguments@.subrange(0, i as int).map_values(
                    |s: &str| s@,
                ),
            decreases arguments@.len() - i,
        {
            let ghost prev = r.argv();
            r = r.a(arguments[i]);
            proof {
                assert(arguments@.subrange(0, i + 1).map_values(|s: &str| s@) =~= arguments@.subrange(
                    0,
                    i as int,
                ).map_values(|s: &str| s@).push(arguments@[i as int]@));
            }
            i = i + 1;
        }
        proof {
            assert(arguments@.subrange(0, i as int) =~= arguments@);
        }
        r
    }

    /// Appends the program and its arguments, separated by spaces.
    pub fn render_into(&self, out: &mut String)
        ensures
            final(out)@ == old(out)@ + joined(self.argv()),
    {
        append_joined(out, &self.words);
    }

    /// The program name.
    pub fn program(&self) -> (r: &String)
        ensures
            r@ == self.argv()[0],
    {
        proof {
            use_type_invariant(self);
        }
        &self.words[0]
    }

    /// The arguments after the program name.
    pub fn arguments(&self) -> (r: Vec<String>)
        ensures
            strs(r@) == self.argv().drop_first(),
    {
        proof {
            use_type_invariant(self);
        }
        let mut r: Vec<String> = Vec::new();
        let mut i: usize = 1;
        while i < self.words.len()
            invariant
                1 <= i <= self.words@.len(),
                strs(r@) == strs(self.words@).subrange(1, i as int),
            decreases self.words@.len() - i,
        {
            let w = self.words[i].clone();
            let ghost before = r@;
            r.push(w);
            proof {
                assert(r@ == before.push(w));
                assert(w == self.words@[i as int]);
                assert(strs(r@) =~= strs(before).push(w@));
                assert(strs(self.words@).subrange(1, i + 1) =~= strs(self.words@).subrange(
                    1,
                    i as int,
                ).push(w@));
            }
            i = i + 1;
        }
        proof {
            assert(strs(self.words@).subrange(1, i as int) =~= strs(self.words@).drop_first());
        }
        r
    }
}

/// A shell-like rendering of a tree, for logs and diagnostics only.
pub open spec fn rendered(node: Node) -> Seq<char>
    decreases node,
{
    match node {
        Node::Single(s) => joined(s.argv()),
        Node::Env(e) => e.key@ + "="@ + e.value@ + " "@ + rendered(*e.on),
        Node::ClearEnv(c) => "CLEAR_ENV \""@ + rendered(*c.on) + "\""@,
        Node::ExceptEnv(e) => "unset "@ + e.key@ + " "@ + rendered(*e.on),
        Node::ExceptEnvs(e) => "unset "@ + joined(strs(e.keys@)) + " "@ + rendered(*e.on),
        Node::Dir(d) => "cd \""@ + d.path@ + "\"; "@ + rendered(*d.on),
        Node::Input(i) => rendered(*i.on) + " < \""@ + i.input@ + "\""@,
        Node::Pipe(p) => rendered(*p.first) + " | "@ + rendered(*p.second),
        Node::Then(t) => rendered(*t.first) + "; "@ + rendered(*t.second),
        Node::And(a) => rendered(*a.first) + " && "@ + rendered(*a.second),
        Node::Or(o) => rendered(*o.first) + " || "@ + rendered(*o.second),
    }
}

impl Node {
    /// Appends the rendering of the tree.
    pub fn render_into(&self, out: &mut String)
        ensures
            final(out)@ == old(out)@ + rendered(*self),
        decreases self,
    {
        let ghost start = out@;
        match self {
            Node::Single(s) => s.render_into(out),
            Node::Env(e) => {
                out.append(e.key.as_str());
                out.append("=");
                out.append(e.value.as_str());
                out.append(" ");
                e.on.render_into(out);
                proof {
                    assert(out@ =~= start + rendered(*self));
                }
            },
            Node::ClearEnv(c) => {
                out.append("CLEAR_ENV \"");
                c.on.render_into(out);
                out.append("\"");
                proof {
                    assert(out@ =~= start + rendered(*self));
                }
            },
            Node::ExceptEnv(e) => {
                out.append("unset ");
                out.append(e.key.as_str());
                out.append(" ");
                e.on.render_into(out);
                proof {
                    assert(out@ =~= start + rendered(*self));
                }
            },
            Node::ExceptEnvs(e) => {
                out.append("unset ");
                append_joined(out, &e.keys);
                out.append(" ");
                e.on.render_into(out);
                proof {
                    assert(out@ =~= start + rendered(*self));
                }
            },
            Node::Dir(d) => {
                out.append("cd \"");
                out.append(d.path.as_str());
                out.append("\"; ");
                d.on.render_into(out);
                proof {
                    assert(out@ =~= start + rendered(*self));
                }
            },
            Node::Input(i) => {
                i.on.render_into(out);
                out.append(" < \"");
                out.append(i.input.as_str());
                out.append("\"");
                proof {
                    assert(out@ =~= start + rendered(*self));
                }
            },
            Node::Pipe(p) => {
                p.first.render_into(out);
                out.append(" | ");
                p.second.render_into(out);
                proof {
                    assert(out@ =~= start + rendered(*self));
                }
            },
            Node::Then(t) => {
                t.first.render_into(out);
                out.append("; ");
                t.second.render_into(out);
                proof {
                    assert(out@ =~= start + rendered(*self));
                }
            },
            Node::And(a) => {
                a.first.render_into(out);
                out.append(" && ");
                a.second.render_into(out);
                proof {
                    assert(out@ =~= start + rendered(*self));
                }
            },
            Node::Or(o) => {
                o.first.render_into(out);
                out.append(" || ");
                o.second.render_into(out);
                proof {
                    assert(out@ =~= start + rendered(*self));
                }
            },
        }
    }

    /// A shell-like rendering of the tree, for logs and diagnostics.
    pub fn render(&self) -> (r: String)
        ensures
            r@ == rendered(*self),
    {
        let mut out = String::new();
        self.render_into(&mut out);
        proof {
            assert(out@ =~= rendered(*self));
        }
        out
    }
}

/// A value that stands for a command tree.
pub trait Tree: Sized {
    /// The tree this value stands for.
    spec fn tree(&self) -> Node;

    /// Turns the value into the tree it stands for.
    fn into_node(self) -> (r: Node)
        ensures
            r == self.tree(),
    ;
}

/// Every command tree can be built upon with the operators of a shell.
/// Each operator takes the tree by value and wraps it in a new node.
pub trait Command: Tree {
    /// Equivalent to &&, as in "command 1" && "command 2".
    fn and<C: Tree>(self, other: C) -> (r: And)
        ensures
            *r.first == self.tree(),
            *r.second == other.tree(),
    ;

    /// Equivalent to ||, as in "command 1" || "command 2".
    fn or<C: Tree>(self, other: C) -> (r: Or)
        ensures
            *r.first == self.tree(),
            *r.second == other.tree(),
    ;

    /// Equivalent to ;, as in "command 1"; "command 2".
    fn then<C: Tree>(self, other: C) -> (r: Then)
        ensures
            *r.first == self.tree(),
            *r.second == other.tree(),
    ;

    /// Equivalent to |, as in "pipe 1" | "into 2".
    fn pipe<C: Tree>(self, other: C) -> (r: Pipe)
        ensures
            *r.first == self.tree(),
            *r.second == other.tree(),
    ;

    /// Sets a variable in the environment the command is run in.
    fn env(self, key: &str, value: &str) -> (r: Env)
        ensures
            r.key@ == key@,
            r.value@ == value@,
            *r.on == self.tree(),
    ;

    /// Clears the environment for variables that are not set explicitly.
    fn clear_envs(self) -> (r: ClearEnv)
        ensures
            *r.on == self.tree(),
    ;

    /// Removes a variable from the environment in which the command is run.
    fn without_env(self, key: &str) -> (r: ExceptEnv)
        ensures
            r.key@ == key@,
            *r.on == self.tree(),
    ;

    /// Removes several variables from the environment.
    fn without_envs(self, envs: Vec<String>) -> (r: ExceptEnvs)
        ensures
            r.keys@ == envs@,
            *r.on == self.tree(),
    ;

    /// Runs the command in the directory `dir`.
    fn with_dir(self, dir: &str) -> (r: Dir)
        ensures
            r.path@ == dir@,
            *r.on == self.tree(),
    ;

    /// Pipes `input` into the command.
    fn with_input(self, input: &str) -> (r: Input)
        ensures
            r.input@ == input@,
            *r.on == self.tree(),
    ;
}

impl<T: Tree> Command for T {
    fn and<C: Tree>(self, other: C) -> (r: And) {
        And { first: Box::new(self.into_node()), second: Box::new(other.into_node()) }
    }

    fn or<C: Tree>(self, other: C) -> (r: Or) {
        Or { first: Box::new(self.into_node()), second: Box::new(other.into_node()) }
    }

    fn then<C: Tree>(self, other: C) -> (r: Then) {
        Then { first: Box::new(self.into_node()), second: Box::new(other.into_node()) }
    }

    fn pipe<C: Tree>(self, other: C) -> (r: Pipe) {
        Pipe { first: Box::new(self.into_node()), second: Box::new(other.into_node()) }
    }

    fn env(self, key: &str, value: &str) -> (r: Env) {
        Env { key: key.to_owned(), value: value.to_owned(), on: Box::new(self.into_node()) }
    }

    fn clear_envs(self) -> (r: ClearEnv) {
        ClearEnv { on: Box::new(self.into_node()) }
    }

    fn without_env(self, key: &str) -> (r: ExceptEnv) {
        ExceptEnv { key: key.to_owned(), on: Box::new(self.into_node()) }
    }

    fn without_envs(self, envs: Vec<String>) -> (r: ExceptEnvs) {
        ExceptEnvs { keys: envs, on: Box::new(self.into_node()) }
    }

    fn with_dir(self, dir: &str) -> (r: Dir) {
        Dir { path: dir.to_owned(), on: Box::new(self.into_node()) }
    }

    fn with_input(self, input: &str) -> (r: Input) {
        Input { input: input.to_owned(), on: Box::new(self.into_node()) }
    }
}

impl Tree for Node {
    open spec fn tree(&self) -> Node {
        *self
    }

    fn into_node(self) -> (r: Node) {
        self
    }
}

impl Tree for Single {
    open spec fn tree(&self) -> Node {
        Node::Single(*self)
    }

    fn into_node(self) -> (r: Node) {
        Node::Single(self)
    }
}

impl Tree for Env {
    open spec fn tree(&self) -> Node {
        Node::Env(*self)
    }

    fn into_node(self) -> (r: Node) {
        Node::Env(self)
    }
}

impl Tree for ClearEnv {
    open spec fn tree(&self) -> Node {
        Node::ClearEnv(*self)
    }

    fn into_node(self) -> (r: Node) {
        Node::ClearEnv(self)
    }
}

impl Tree for ExceptEnv {
    open spec fn tree(&self) -> Node {
        Node::ExceptEnv(*self)
    }

    fn into_node(self) -> (r: Node) {
        Node::ExceptEnv(self)
    }
}

impl Tree for ExceptEnvs {
    open spec fn tree(&self) -> Node {
        Node::ExceptEnvs(*self)
    }

    fn into_node(self) -> (r: Node) {
        Node::ExceptEnvs(self)
    }
}

impl Tree for Dir {
    open spec fn tree(&self) -> Node {
        Node::Dir(*self)
    }

    fn into_node(self) -> (r: Node) {
        Node::Dir(self)
    }
}

impl Tree for Input {
    open spec fn tree(&self) -> Node {
        Node::Input(*self)
    }

    fn into_node(self) -> (r: Node) {
        Node::Input(self)
    }
}

impl Tree for Pipe {
    open spec fn tree(&self) -> Node {
        Node::Pipe(*self)
    }

    fn into_node(self) -> (r: Node) {
        Node::Pipe(self)
    }
}

impl Tree for Then {
    open spec fn tree(&self) -> Node {
        Node::Then(*self)
    }

    fn into_node(self) -> (r: Node) {
        Node::Then(self)
    }
}

impl Tree for And {
    open spec fn tree(&self) -> Node {
        Node::And(*self)
    }

    fn into_node(self) -> (r: Node) {
        Node::And(self)
    }
}

impl Tree for Or {
    open spec fn tree(&self) -> Node {
        Node::Or(*self)
    }

    fn into_node(self) -> (r: Node) {
        Node::Or(self)
    }
}

} // verus!
