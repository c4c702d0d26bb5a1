//! The syntax tree and its mathematical model.

use vstd::prelude::*;

verus! {

/// One node of the syntax tree.
///
/// Containers hold their children in source order. The two named containers
/// also carry an operator symbol or a function name. Leaves hold one scalar.
#[derive(Debug, PartialEq, Eq)]
#[allow(inconsistent_fields)]
pub enum Node {
    Program { children: Vec<Node> },
    Statement { children: Vec<Node> },
    FunctionReturn { children: Vec<Node> },
    FunctionDefine { children: Vec<Node> },
    FunctionArguments { children: Vec<Node> },
    FunctionStatements { children: Vec<Node> },
    Expression { children: Vec<Node> },
    VariableDefine { children: Vec<Node> },
    MathExpression { name: String, children: Vec<Node> },
    FunctionCall { name: String, children: Vec<Node> },
    Number { value: i32 },
    Bool { value: bool },
    Identifier { value: String },
    String { value: String },
}

/// The mathematical value of a [`Node`]: the same tree over sequences.
#[allow(inconsistent_fields)]
pub enum Tree {
    Program { children: Seq<Tree> },
    Statement { children: Seq<Tree> },
    FunctionReturn { children: Seq<Tree> },
    FunctionDefine { children: Seq<Tree> },
    FunctionArguments { children: Seq<Tree> },
    FunctionStatements { children: Seq<Tree> },
    Expression { children: Seq<Tree> },
    VariableDefine { children: Seq<Tree> },
    MathExpression { name: Seq<char>, children: Seq<Tree> },
    FunctionCall { name: Seq<char>, children: Seq<Tree> },
    Number { value: i32 },
    Bool { value: bool },
    Identifier { value: Seq<char> },
    String { value: Seq<char> },
}

impl Tree {
    /// Whether the tree may be an operand of an arithmetic operator.
    pub open spec fn is_operand(self) -> bool {
        self is Number || self is Identifier || self is MathExpression || self is FunctionCall
    }

    /// Whether the tree may be the child of an `Expression`.
    pub open spec fn is_value(self) -> bool {
        self.is_operand() || self is Bool || self is String
    }

    /// Whether the tree may stand in the body of a function.
    pub open spec fn is_body_item(self) -> bool {
        self is Statement || self is Expression
    }

    /// Whether the tree may stand at the top of a program.
    pub open spec fn is_item(self) -> bool {
        self is FunctionDefine || self is Statement || self is Expression
    }

    /// Whether the tree, and every tree below it, has the children that its
    /// kind calls for:
    /// a program has at least one item; a statement has one return or one
    /// variable definition; a return has one expression; a function
    /// definition has a name, arguments, and at least one body item; arguments
    /// have expressions only; an expression has one value; a variable
    /// definition has a name and an expression; an operator has two operands
    /// and is named by one of `+ - * / ^`; a function call has arguments.
    pub open spec fn well_formed(self) -> bool
        decreases self,
    {
        match self {
            Tree::Program { children } => children.len() >= 1 && forall|i: int|
                0 <= i < children.len() ==> (#[trigger] children[i]).is_item()
                    && children[i].well_formed(),
            Tree::Statement { children } => children.len() == 1 && (children[0] is FunctionReturn
                || children[0] is VariableDefine) && children[0].well_formed(),
            Tree::FunctionReturn { children } => children.len() == 1 && children[0] is Expression
                && children[0].well_formed(),
            Tree::FunctionDefine { children } => children.len() >= 3 && children[0] is Identifier
                && children[1] is FunctionArguments && forall|i: int|
                0 <= i < children.len() ==> (i >= 2 ==> (#[trigger] children[i]).is_body_item())
                    && children[i].well_formed(),
            Tree::FunctionArguments { children } => forall|i: int|
                0 <= i < children.len() ==> (#[trigger] children[i]) is Expression
                    && children[i].well_formed(),
            Tree::FunctionStatements { children } => forall|i: int|
                0 <= i < children.len() ==> (#[trigger] children[i]).is_body_item()
                    && children[i].well_formed(),
            Tree::Expression { children } => children.len() == 1 && children[0].is_value()
                && children[0].well_formed(),
            Tree::VariableDefine { children } => children.len() == 2 && children[0] is Identifier
                && children[1] is Expression && children[1].well_formed(),
            Tree::MathExpression { name, children } => is_operator(name) && children.len() == 2
                && children[0].is_operand() && children[1].is_operand()
                && children[0].well_formed() && children[1].well_formed(),
            Tree::FunctionCall { name, children } => children.len() == 1
                && children[0] is FunctionArguments && children[0].well_formed(),
            Tree::Number { .. } => true,
            Tree::Bool { .. } => true,
            Tree::Identifier { .. } => true,
            Tree::String { .. } => true,
        }
    }

    /// Whether the tree is an operator that still lacks its left operand: it
    /// has the right one only, and that one is well formed.
    pub open spec fn awaits_left_operand(self) -> bool {
        self matches Tree::MathExpression { name, children } && is_operator(name) && children.len()
            == 1 && children[0].is_operand() && children[0].well_formed()
    }
}

/// Whether `name` is one of the five infix operators.
pub open spec fn is_operator(name: Seq<char>) -> bool {
    name == seq!['+'] || name == seq!['-'] || name == seq!['*'] || name == seq!['/'] || name
        == seq!['^']
}

/// The models of a list of nodes, in the same order.
pub open spec fn trees_of(nodes: Seq<Node>) -> Seq<Tree>
    decreases nodes,
{
    Seq::new(
        nodes.len(),
        |i: int|
            if 0 <= i < nodes.len() {
                tree_of(nodes[i])
            } else {
                arbitrary()
            },
    )
}

/// The model of one node.
pub open spec fn tree_of(node: Node) -> Tree
    decreases node,
{
    match node {
        Node::Program { children } => Tree::Program { children: trees_of(children@) },
        Node::Statement { children } => Tree::Statement { children: trees_of(children@) },
        Node::FunctionReturn { children } => Tree::FunctionReturn { children: trees_of(children@) },
        Node::FunctionDefine { children } => Tree::FunctionDefine { children: trees_of(children@) },
        Node::FunctionArguments { children } => Tree::FunctionArguments {
            children: trees_of(children@),
        },
        Node::FunctionStatements { children } => Tree::FunctionStatements {
            children: trees_of(children@),
        },
        Node::Expression { children } => Tree::Expression { children: trees_of(children@) },
        Node::VariableDefine { children } => Tree::VariableDefine { children: trees_of(children@) },
        Node::MathExpression { name, children } => Tree::MathExpression {
            name: name@,
            children: trees_of(children@),
        },
        Node::FunctionCall { name, children } => Tree::FunctionCall {
            name: name@,
            children: trees_of(children@),
        },
        Node::Number { value } => Tree::Number { value },
        Node::Bool { value } => Tree::Bool { value },
        Node::Identifier { value } => Tree::Identifier { value: value@ },
        Node::String { value } => Tree::String { value: value@ },
    }
}

impl View for Node {
    type V = Tree;

    open spec fn view(&self) -> Tree {
        tree_of(*self)
    }
}

impl Clone for Node {
    /// A deep copy: the copy models the same tree.
    fn clone(&self) -> (copy: Node)
        ensures
            copy@ == self@,
        decreases self,
    {
        match self {
            Node::Program { children } => Node::Program { children: clone_nodes(children) },
            Node::Statement { children } => Node::Statement { children: clone_nodes(children) },
            Node::FunctionReturn { children } => Node::FunctionReturn {
                children: clone_nodes(children),
            },
            Node::FunctionDefine { children } => Node::FunctionDefine {
                children: clone_nodes(children),
            },
            Node::FunctionArguments { children } => Node::FunctionArguments {
                children: clone_nodes(children),
            },
            Node::FunctionStatements { children } => Node::FunctionStatements {
                children: clone_nodes(children),
            },
            Node::Expression { children } => Node::Expression { children: clone_nodes(children) },
            Node::VariableDefine { children } => Node::VariableDefine {
                children: clone_nodes(children),
            },
            Node::MathExpression { name, children } => Node::MathExpression {
                name: name.clone(),
                children: clone_nodes(children),
            },
            Node::FunctionCall { name, children } => Node::FunctionCall {
                name: name.clone(),
                children: clone_nodes(children),
            },
            Node::Number { value } => Node::Number { value: *value },
            Node::Bool { value } => Node::Bool { value: *value },
            Node::Identifier { value } => Node::Identifier { value: value.clone() },
            Node::String { value } => Node::String { value: value.clone() },
        }
    }
}

/// Copies a list of nodes, one deep copy per element.
fn clone_nodes(nodes: &Vec<Node>) -> (copy: Vec<Node>)
    ensures
        trees_of(copy@) == trees_of(nodes@),
    decreases nodes,
{
    let mut copy: Vec<Node> = Vec::new();
    let mut i: usize = 0;
    while i < nodes.len()
        invariant
            i <= nodes.len(),
            copy.len() == i,
            forall|j: int| 0 <= j < i ==> copy@[j]@ == nodes@[j]@,
        decreases nodes.len() - i,
    {
        copy.push(nodes[i].clone());
        i += 1;
    }
    assert(trees_of(copy@) =~= trees_of(nodes@));
    copy
}

} // verus!
