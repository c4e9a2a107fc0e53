//! The command tree: `Group` nodes namespace child groups and commands and may
//! require a role; `Command` leaves declare an ordered list of argument slots.
//! Trees are built once at component-registration time and never mutated while
//! routing is in progress.

use vstd::prelude::*;

verus! {

/// Declared shape of one argument slot: free text, an integer, or a boolean.
#[derive(Clone, Copy, Debug, PartialEq, Eq, Structural)]
pub enum ArgKind {
    Text,
    Int,
    Bool,
}

/// One declared argument slot of a command.
pub struct ArgSpec {
    pub name: String,
    pub kind: ArgKind,
    pub required: bool,
}

/// A leaf of the command tree: one invocable action.
pub struct Command {
    pub name: String,
    pub required_role: Option<String>,
    pub help: Option<String>,
    pub args: Vec<ArgSpec>,
}

/// An interior node of the command tree.
pub struct Group {
    pub name: String,
    pub required_role: Option<String>,
    pub help: Option<String>,
    pub groups: Vec<Group>,
    pub commands: Vec<Command>,
}

/// The view of an optional role (or help) string.
pub open spec fn opt_view(o: Option<String>) -> Option<Seq<char>> {
    match o {
        None => None,
        Some(s) => Some(s@),
    }
}

impl ArgSpec {
    pub fn new(name: &str, kind: ArgKind, required: bool) -> (r: Self)
        ensures
            r.name@ == name@,
            r.kind == kind,
            r.required == required,
    {
        ArgSpec { name: String::from_str(name), kind, required }
    }
}

impl Command {
    pub fn new(name: &str) -> (r: Self)
        ensures
            r.name@ == name@,
            r.required_role is None,
            r.help is None,
            r.args@ =~= Seq::<ArgSpec>::empty(),
    {
        Command { name: String::from_str(name), required_role: None, help: None, args: Vec::new() }
    }

    pub fn set_role(self, role: &str) -> (r: Self)
        ensures
            opt_view(r.required_role) == Some(role@),
            r.name == self.name,
            r.help == self.help,
            r.args == self.args,
    {
        Command { required_role: Some(String::from_str(role)), ..self }
    }

    pub fn set_help(self, help: &str) -> (r: Self)
        ensures
            opt_view(r.help) == Some(help@),
            r.name == self.name,
            r.required_role == self.required_role,
            r.args == self.args,
    {
        Command { help: Some(String::from_str(help)), ..self }
    }

    pub fn add_argument(self, arg: ArgSpec) -> (r: Self)
        ensures
            r.args@ == self.args@.push(arg),
            r.name == self.name,
            r.required_role == self.required_role,
            r.help == self.help,
    {
        let mut c = self;
        c.args.push(arg);
        c
    }
}

/// The declared shape of a command's slots: name, kind and whether the
/// slot must be filled.
pub open spec fn arg_shape(c: Command) -> Seq<(Seq<char>, ArgKind, bool)> {
    Seq::new(c.args@.len(), |i: int| (c.args@[i].name@, c.args@[i].kind, c.args@[i].required))
}

/// The names of all direct children of a group, groups first, then commands.
pub open spec fn child_names(g: Group) -> Seq<Seq<char>> {
    Seq::new(g.groups@.len(), |i: int| g.groups@[i].name@) + Seq::new(
        g.commands@.len(),
        |i: int| g.commands@[i].name@,
    )
}

/// No two elements of the sequence are equal.
pub open spec fn names_unique(s: Seq<Seq<char>>) -> bool {
    forall|i: int, j: int| 0 <= i < j < s.len() ==> s[i] != s[j]
}

/// A well-formed tree has unique names among the children of every node,
/// groups and commands sharing one namespace at each level.
pub open spec fn group_wf(g: Group) -> bool
    decreases g,
{
    &&& names_unique(child_names(g))
    &&& forall|i: int| 0 <= i < g.groups@.len() ==> group_wf(#[trigger] g.groups@[i])
}

/// Two pairwise distinct names form a unique family.
pub proof fn lemma_unique2(a: Seq<char>, b: Seq<char>, s: Seq<Seq<char>>)
    requires
        s =~= seq![a, b],
        a != b,
    ensures
        names_unique(s),
{
    assert forall|i: int, j: int| 0 <= i < j < s.len() implies s[i] != s[j] by {
        assert(i == 0 && j == 1);
    }
}

/// Three pairwise distinct names form a unique family.
pub proof fn lemma_unique3(a: Seq<char>, b: Seq<char>, c: Seq<char>, s: Seq<Seq<char>>)
    requires
        s =~= seq![a, b, c],
        a != b,
        a != c,
        b != c,
    ensures
        names_unique(s),
{
    assert forall|i: int, j: int| 0 <= i < j < s.len() implies s[i] != s[j] by {
        if i == 0 && j == 1 {
        } else if i == 0 && j == 2 {
        } else {
            assert(i == 1 && j == 2);
        }
    }
}

impl Group {
    pub fn new(name: &str) -> (r: Self)
        ensures
            r.name@ == name@,
            r.required_role is None,
            r.help is None,
            r.groups@ =~= Seq::<Group>::empty(),
            r.commands@ =~= Seq::<Command>::empty(),
    {
        Group {
            name: String::from_str(name),
            required_role: None,
            help: None,
            groups: Vec::new(),
            commands: Vec::new(),
        }
    }

    pub fn set_role(self, role: &str) -> (r: Self)
        ensures
            opt_view(r.required_role) == Some(role@),
            r.name == self.name,
            r.help == self.help,
            r.groups == self.groups,
            r.commands == self.commands,
    {
        Group { required_role: Some(String::from_str(role)), ..self }
    }

    pub fn set_help(self, help: &str) -> (r: Self)
        ensures
            opt_view(r.help) == Some(help@),
            r.name == self.name,
            r.required_role == self.required_role,
            r.groups == self.groups,
            r.commands == self.commands,
    {
        Group { help: Some(String::from_str(help)), ..self }
    }

    pub fn add_command(self, cmd: Command) -> (r: Self)
        ensures
            r.commands@ == self.commands@.push(cmd),
            r.name == self.name,
            r.required_role == self.required_role,
            r.help == self.help,
            r.groups == self.groups,
    {
        let mut g = self;
        g.commands.push(cmd);
        g
    }

    pub fn add_group(self, group: Group) -> (r: Self)
        ensures
            r.groups@ == self.groups@.push(group),
            r.name == self.name,
            r.required_role == self.required_role,
            r.help == self.help,
            r.commands == self.commands,
    {
        let mut g = self;
        g.groups.push(group);
        g
    }

    /// Whether every node of this tree has pairwise distinct child names.
    /// A tree for which this fails is a configuration error and is rejected
    /// at registration time.
    pub fn check_wf(&self) -> (b: bool)
        ensures
            b == group_wf(*self),
        decreases *self,
    {
        let gl = self.groups.len();
        let cl = self.commands.len();
        proof {
            assert forall|p: int| 0 <= p < gl implies child_names(*self)[p]
                == self.groups@[p].name@ by {}
            assert forall|p: int| 0 <= p < cl implies child_names(*self)[gl + p]
                == self.commands@[p].name@ by {}
        }
        let mut i: usize = 0;
        while i < gl
            invariant
                gl == self.groups@.len(),
                i <= gl,
                forall|p: int, q: int|
                    0 <= p < q < gl && p < i ==> self.groups@[p].name@ != self.groups@[q].name@,
            decreases gl - i,
        {
            let mut j: usize = i + 1;
            while j < gl
                invariant
                    gl == self.groups@.len(),
                    i < j <= gl,
                    forall|q: int| i < q < j ==> self.groups@[i as int].name@ != self.groups@[q].name@,
                decreases gl - j,
            {
                if self.groups[i].name.eq(&self.groups[j].name) {
                    proof {
                        assert(child_names(*self)[i as int] == child_names(*self)[j as int]);
                    }
                    return false;
                }
                j = j + 1;
            }
            i = i + 1;
        }
        let mut i: usize = 0;
        while i < gl
            invariant
                gl == self.groups@.len(),
                cl == self.commands@.len(),
                i <= gl,
                forall|p: int, q: int|
                    0 <= p < i && 0 <= q < cl ==> self.groups@[p].name@ != self.commands@[q].name@,
            decreases gl - i,
        {
            let mut j: usize = 0;
            while j < cl
                invariant
                    gl == self.groups@.len(),
                    cl == self.commands@.len(),
                    i < gl,
                    j <= cl,
                    forall|q: int| 0 <= q < j ==> self.groups@[i as int].name@ != self.commands@[q].name@,
                decreases cl - j,
            {
                if self.groups[i].name.eq(&self.commands[j].name) {
                    proof {
                        assert(child_names(*self)[i as int] == child_names(*self)[gl + j]);
                    }
                    return false;
                }
                j = j + 1;
            }
            i = i + 1;
        }
        let mut i: usize = 0;
        while i < cl
            invariant
                gl == self.groups@.len(),
                cl == self.commands@.len(),
                i <= cl,
                forall|p: int, q: int|
                    0 <= p < q < cl && p < i ==> self.commands@[p].name@ != self.commands@[q].name@,
            decreases cl - i,
        {
            let mut j: usize = i + 1;
            while j < cl
                invariant
                    gl == self.groups@.len(),
                    cl == self.commands@.len(),
                    i < j <= cl,
                    forall|q: int|
                        i < q < j ==> self.commands@[i as int].name@ != self.commands@[q].name@,
                decreases cl - j,
            {
                if self.commands[i].name.eq(&self.commands[j].name) {
                    proof {
                        assert(child_names(*self)[gl + i] == child_names(*self)[gl + j]);
                    }
                    return false;
                }
                j = j + 1;
            }
            i = i + 1;
        }
        proof {
            assert forall|p: int, q: int| 0 <= p < q < child_names(*self).len() implies child_names(
                *self,
            )[p] != child_names(*self)[q] by {
                if q < gl {
                } else if p < gl {
                } else {
                }
            }
        }
        let mut k: usize = 0;
        while k < self.groups.len()
            invariant
                k <= self.groups@.len(),
                names_unique(child_names(*self)),
                forall|p: int| 0 <= p < k ==> group_wf(#[trigger] self.groups@[p]),
            decreases self.groups.len() - k,
        {
            if !self.groups[k].check_wf() {
                return false;
            }
            k = k + 1;
        }
        true
    }
}

} // verus!
