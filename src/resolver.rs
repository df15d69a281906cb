use vstd::prelude::*;
use vstd::string::*;
use crate::ast::AstNode;
use crate::compiler::{entries_below, lemma_lookup_below};
use crate::error::ResolverError;
use crate::location::Location;
use crate::program::{lookup, FunctionEntry, Program};

verus! {

broadcast use vstd::std_specs::vec::group_vec_axioms;

/// The location of the first explicit call of `main` in the node.
pub open spec fn main_call_node(node: AstNode) -> Option<Location>
    decreases node,
{
    match node {
        AstNode::FunctionCall { name, location } => if name@ == "main"@ {
            Some(location)
        } else {
            None
        },
        AstNode::Identifier(name, location) => if name@ == "main"@ {
            Some(location)
        } else {
            None
        },
        AstNode::IfExpression { then_branch, else_branch, .. } => match main_call_nodes(
            then_branch.nodes@,
        ) {
            Some(l) => Some(l),
            None => match else_branch {
                Some(b) => main_call_nodes(b.nodes@),
                None => None,
            },
        },
        AstNode::WhileExpression { condition, body, .. } => match main_call_nodes(condition.nodes@) {
            Some(l) => Some(l),
            None => main_call_nodes(body.nodes@),
        },
        AstNode::FunctionDeclaration { body, .. } => main_call_nodes(body.nodes@),
        _ => None,
    }
}

/// The location of the first explicit call of `main` in the nodes.
pub open spec fn main_call_nodes(nodes: Seq<AstNode>) -> Option<Location>
    decreases nodes,
{
    if nodes.len() == 0 {
        None
    } else {
        match main_call_nodes(nodes.drop_last()) {
            Some(l) => Some(l),
            None => main_call_node(nodes.last()),
        }
    }
}

/// The function table and block count after registering the declarations
/// in the node, at any depth: each declaration gets the next block, then
/// the declarations in its body are registered; the branches of an `if`
/// and the condition and body of a `while` are searched in order.
pub open spec fn declare_node(functions: Seq<FunctionEntry>, n: nat, node: AstNode) -> (Seq<
    FunctionEntry,
>, nat)
    decreases node,
{
    match node {
        AstNode::FunctionDeclaration { name, body, .. } => declare_nodes(
            functions.push(FunctionEntry { name, block: n as usize }),
            n + 1,
            body.nodes@,
        ),
        AstNode::IfExpression { then_branch, else_branch, .. } => {
            let (f1, n1) = declare_nodes(functions, n, then_branch.nodes@);
            match else_branch {
                Some(b) => declare_nodes(f1, n1, b.nodes@),
                None => (f1, n1),
            }
        },
        AstNode::WhileExpression { condition, body, .. } => {
            let (f1, n1) = declare_nodes(functions, n, condition.nodes@);
            declare_nodes(f1, n1, body.nodes@)
        },
        _ => (functions, n),
    }
}

pub open spec fn declare_nodes(functions: Seq<FunctionEntry>, n: nat, nodes: Seq<AstNode>) -> (Seq<
    FunctionEntry,
>, nat)
    decreases nodes,
{
    if nodes.len() == 0 {
        (functions, n)
    } else {
        let (f1, n1) = declare_nodes(functions, n, nodes.drop_last());
        declare_node(f1, n1, nodes.last())
    }
}

/// The declaration pass: allocates one empty block per declared function
/// and registers its name, so that lowering can emit calls to functions
/// declared later.
#[derive(Debug)]
pub struct Resolver {
    pub program: Program,
    pub current_block: usize,
}

/// Each block is empty.
pub open spec fn all_empty(p: Program) -> bool {
    forall|b: int| 0 <= b < p.code().len() ==> (#[trigger] p.code()[b]).len() == 0
}

impl Resolver {
    pub fn new() -> (r: Self)
        ensures
            r.program.blocks@.len() == 0,
            r.program.functions@.len() == 0,
            r.program.strings@.len() == 0,
    {
        Resolver { program: Program::new(), current_block: 0 }
    }

    fn find_main_call_node(node: &AstNode) -> (r: Option<Location>)
        ensures
            r == main_call_node(*node),
        decreases node,
    {
        match node {
            AstNode::FunctionCall { name, location } => if *name == String::from_str("main") {
                Some(*location)
            } else {
                None
            },
            AstNode::Identifier(name, location) => if *name == String::from_str("main") {
                Some(*location)
            } else {
                None
            },
            AstNode::IfExpression { then_branch, else_branch, .. } => match Self::find_main_call(
                &then_branch.nodes,
            ) {
                Some(l) => Some(l),
                None => match else_branch {
                    Some(b) => Self::find_main_call(&b.nodes),
                    None => None,
                },
            },
            AstNode::WhileExpression { condition, body, .. } => match Self::find_main_call(
                &condition.nodes,
            ) {
                Some(l) => Some(l),
                None => Self::find_main_call(&body.nodes),
            },
            AstNode::FunctionDeclaration { body, .. } => Self::find_main_call(&body.nodes),
            _ => None,
        }
    }

    /// The location of the first explicit call of `main` in the nodes.
    fn find_main_call(nodes: &Vec<AstNode>) -> (r: Option<Location>)
        ensures
            r == main_call_nodes(nodes@),
        decreases nodes@,
    {
        let mut i: usize = 0;
        proof {
            assert(nodes@.take(0) =~= Seq::<AstNode>::empty());
        }
        while i < nodes.len()
            invariant
                i <= nodes@.len(),
                main_call_nodes(nodes@.take(i as int)) is None,
            decreases nodes@.len() - i,
        {
            proof {
                assert(nodes@.take(i + 1).drop_last() =~= nodes@.take(i as int));
                assert(nodes@.take(i + 1).last() == nodes@[i as int]);
            }
            match Self::find_main_call_node(&nodes[i]) {
                Some(l) => {
                    proof {
                        Self::lemma_main_call_prefix(nodes@, i + 1);
                    }
                    return Some(l);
                },
                None => {},
            }
            i = i + 1;
        }
        proof {
            assert(nodes@.take(i as int) =~= nodes@);
        }
        None
    }

    proof fn lemma_main_call_prefix(nodes: Seq<AstNode>, i: int)
        requires
            0 <= i <= nodes.len(),
            main_call_nodes(nodes.take(i)) is Some,
        ensures
            main_call_nodes(nodes) == main_call_nodes(nodes.take(i)),
        decreases nodes.len(),
    {
        if i < nodes.len() {
            let rest = nodes.drop_last();
            assert(rest.take(i) =~= nodes.take(i));
            Self::lemma_main_call_prefix(rest, i);
        } else {
            assert(nodes.take(i) =~= nodes);
        }
    }

    /// Registers the declarations in the node.
    fn declare_node(&mut self, node: &AstNode)
        requires
            all_empty(old(self).program),
            entries_below(old(self).program.functions@, old(self).program.blocks@.len()),
        ensures
            entries_below(final(self).program.functions@, final(self).program.blocks@.len()),
            (final(self).program.functions@, final(self).program.blocks@.len()) == declare_node(
                old(self).program.functions@,
                old(self).program.blocks@.len(),
                *node,
            ),
            all_empty(final(self).program),
            final(self).program.strings == old(self).program.strings,
            final(self).program.entry_point == old(self).program.entry_point,
        decreases node,
    {
        match node {
            AstNode::FunctionDeclaration { name, body, .. } => {
                let b = self.program.add_block();
                self.current_block = b;
                self.program.add_function(name, b);
                proof {
                    assert(self.program.code().len() == self.program.blocks@.len());
                    assert(old(self).program.code().len() == old(self).program.blocks@.len());
                    assert forall|x: int| 0 <= x < self.program.code().len() implies (
                    #[trigger] self.program.code()[x]).len() == 0 by {
                        if x < old(self).program.code().len() {
                            assert(self.program.code()[x] == old(self).program.code()[x]);
                        }
                    }
                    assert forall|k: int| 0 <= k < self.program.functions@.len() implies (
                    #[trigger] self.program.functions@[k]).block < self.program.blocks@.len() by {
                        if k < old(self).program.functions@.len() {
                            assert(self.program.functions@[k] == old(self).program.functions@[k]);
                        }
                    }
                }
                self.declare_nodes(&body.nodes);
            },
            AstNode::IfExpression { then_branch, else_branch, .. } => {
                self.declare_nodes(&then_branch.nodes);
                match else_branch {
                    Some(b) => self.declare_nodes(&b.nodes),
                    None => {},
                }
            },
            AstNode::WhileExpression { condition, body, .. } => {
                self.declare_nodes(&condition.nodes);
                self.declare_nodes(&body.nodes);
            },
            _ => {},
        }
    }

    /// Registers the declarations in the nodes, in order.
    fn declare_nodes(&mut self, nodes: &Vec<AstNode>)
        requires
            all_empty(old(self).program),
            entries_below(old(self).program.functions@, old(self).program.blocks@.len()),
        ensures
            entries_below(final(self).program.functions@, final(self).program.blocks@.len()),
            (final(self).program.functions@, final(self).program.blocks@.len()) == declare_nodes(
                old(self).program.functions@,
                old(self).program.blocks@.len(),
                nodes@,
            ),
            all_empty(final(self).program),
            final(self).program.strings == old(self).program.strings,
            final(self).program.entry_point == old(self).program.entry_point,
        decreases nodes@,
    {
        let ghost f0 = self.program.functions@;
        let ghost n0 = self.program.blocks@.len();
        let mut i: usize = 0;
        proof {
            assert(nodes@.take(0) =~= Seq::<AstNode>::empty());
        }
        while i < nodes.len()
            invariant
                i <= nodes@.len(),
                all_empty(self.program),
                entries_below(self.program.functions@, self.program.blocks@.len()),
                f0 == old(self).program.functions@,
                n0 == old(self).program.blocks@.len(),
                self.program.strings == old(self).program.strings,
                self.program.entry_point == old(self).program.entry_point,
                (self.program.functions@, self.program.blocks@.len()) == declare_nodes(
                    f0,
                    n0,
                    nodes@.take(i as int),
                ),
            decreases nodes@.len() - i,
        {
            proof {
                assert(nodes@.take(i + 1).drop_last() =~= nodes@.take(i as int));
                assert(nodes@.take(i + 1).last() == nodes@[i as int]);
            }
            self.declare_node(&nodes[i]);
            i = i + 1;
        }
        proof {
            assert(nodes@.take(i as int) =~= nodes@);
        }
    }

    /// What resolving `ast` yields.
    pub open spec fn resolved(ast: Seq<AstNode>, r: Result<Program, ResolverError>) -> bool {
        match main_call_nodes(ast) {
            Some(l) => r == Err::<Program, ResolverError>(ResolverError::CallToMain(l)),
            None => {
                let (functions, n) = declare_nodes(Seq::empty(), 0, ast);
                let p = r->Ok_0;
                &&& r is Ok
                &&& all_empty(p)
                &&& p.strings@.len() == 0
                &&& p.lowerable()
                &&& p.runnable()
                &&& match lookup(functions, "main"@) {
                    Some(b) => p.functions@ == functions && p.blocks@.len() == n && p.entry_point
                        == b,
                    None => p.functions@.len() == functions.len() + 1
                        && p.functions@.drop_last() == functions && p.functions@.last().name@
                        == "main"@ && p.functions@.last().block == n && p.blocks@.len() == n + 1
                        && p.entry_point == n,
                }
            },
        }
    }

    /// Rejects an explicit call of `main`, then registers every declared
    /// function; when none is named `main`, an empty entry block is
    /// registered under that name. The entry point is `main`'s block.
    pub fn resolve(self, ast: &Vec<AstNode>) -> (r: Result<Program, ResolverError>)
        requires
            self.program.blocks@.len() == 0,
            self.program.functions@.len() == 0,
            self.program.strings@.len() == 0,
        ensures
            Self::resolved(ast@, r),
    {
        match Self::find_main_call(ast) {
            Some(l) => return Err(ResolverError::CallToMain(l)),
            None => {},
        }
        let mut resolver = self;
        proof {
            assert(resolver.program.functions@ =~= Seq::<FunctionEntry>::empty());
            assert(resolver.program.code().len() == 0);
        }
        resolver.declare_nodes(ast);
        let ghost n = resolver.program.blocks@.len();
        let ghost p0 = resolver.program;
        proof {
            assert(p0.code().len() == n);
        }
        let main = String::from_str("main");
        match resolver.program.find_function(&main) {
            Some(b) => {
                proof {
                    lemma_lookup_below(p0.functions@, main@, n as nat);
                }
                resolver.program.set_entry_point(b);
            },
            None => {
                let b = resolver.program.add_block();
                resolver.program.add_function(&main, b);
                resolver.program.set_entry_point(b);
                proof {
                    let p = resolver.program;
                    assert(p.functions@.drop_last() =~= p0.functions@);
                    assert forall|x: int| 0 <= x < p.code().len() implies (#[trigger] p.code()[x]).len() == 0 by {
                        if x < n {
                            assert(p.code()[x] == p0.code()[x]);
                        }
                    }
                }
            },
        }
        proof {
            let p = resolver.program;
            assert(p.code().len() == p.blocks@.len());
            assert(p.string_table() =~= Seq::<Seq<char>>::empty());
            assert forall|k: int| 0 <= k < p.functions@.len() implies (
            #[trigger] p.functions@[k]).block < p.blocks@.len() by {
            }
            assert(all_empty(p));
            assert(p.lowerable());
            assert(p.runnable());
            assert(main_call_nodes(ast@) is None);
            assert(declare_nodes(Seq::empty(), 0, ast@) == (p0.functions@, n));
        }
        Ok(resolver.program)
    }
}

} // verus!
