//! Statements: the trees that are run for their effect.

use crate::expression::{Expr, ExprModel};
use crate::token::{token_models, Token, TokenModel, TokenType};
use vstd::prelude::*;

verus! {

/// A statement: a tree that is executed for its effect.
#[derive(Debug, PartialEq, Eq)]
pub enum Stmt {
    /// A lexical scope around a list of statements.
    Block(Vec<Stmt>),
    /// An expression whose value is discarded.
    Expr(Expr),
    /// A function declaration.
    Function(FuncStmt),
    /// A condition, the statement to run when it holds and the one to run
    /// when it does not.
    If(Expr, Box<Stmt>, Option<Box<Stmt>>),
    /// An expression whose value is written out.
    Print(Expr),
    /// A variable declaration with its initializer, if it has one.
    Var(Token, Option<Expr>),
    /// A condition and the statement to repeat while it holds.
    While(Expr, Box<Stmt>),
    /// A return from the enclosing function with a value, if one is given.
    Ret(Option<Expr>),
}

/// A function declaration: its name, its parameters and its body.
#[derive(Debug, PartialEq, Eq)]
pub struct FuncStmt {
    pub name: Token,
    pub params: Vec<Token>,
    pub body: Vec<Stmt>,
}

/// What a [`Stmt`] is, as a mathematical value.
pub enum StmtModel {
    Block(Seq<StmtModel>),
    Expr(ExprModel),
    Function(FuncStmtModel),
    If(ExprModel, Box<StmtModel>, Option<Box<StmtModel>>),
    Print(ExprModel),
    Var(TokenModel, Option<ExprModel>),
    While(ExprModel, Box<StmtModel>),
    Ret(Option<ExprModel>),
}

/// What a [`FuncStmt`] is, as a mathematical value.
pub struct FuncStmtModel {
    pub name: TokenModel,
    pub params: Seq<TokenModel>,
    pub body: Seq<StmtModel>,
}

/// The model of an optional expression.
pub open spec fn optional_expr_model(expr: Option<Expr>) -> Option<ExprModel> {
    match expr {
        Some(expr) => Some(expr@),
        None => None,
    }
}

impl Stmt {
    /// The model of the statement, node by node.
    pub open spec fn model(&self) -> StmtModel
        decreases self,
    {
        match self {
            Stmt::Block(statements) => StmtModel::Block(
                Seq::new(
                    statements.len() as nat,
                    |i: int|
                        if 0 <= i < statements.len() {
                            statements[i].model()
                        } else {
                            StmtModel::Ret(None)
                        },
                ),
            ),
            Stmt::Expr(expr) => StmtModel::Expr(expr@),
            Stmt::Function(function) => StmtModel::Function(
                FuncStmtModel {
                    name: function.name@,
                    params: token_models(function.params@),
                    body: Seq::new(
                        function.body.len() as nat,
                        |i: int|
                            if 0 <= i < function.body.len() {
                                function.body[i].model()
                            } else {
                                StmtModel::Ret(None)
                            },
                    ),
                },
            ),
            Stmt::If(condition, then_branch, else_branch) => StmtModel::If(
                condition@,
                Box::new(then_branch.model()),
                match else_branch {
                    Some(branch) => Some(Box::new(branch.model())),
                    None => None,
                },
            ),
            Stmt::Print(expr) => StmtModel::Print(expr@),
            Stmt::Var(name, initializer) => StmtModel::Var(name@, optional_expr_model(*initializer)),
            Stmt::While(condition, body) => StmtModel::While(condition@, Box::new(body.model())),
            Stmt::Ret(value) => StmtModel::Ret(optional_expr_model(*value)),
        }
    }
}

impl View for Stmt {
    type V = StmtModel;

    open spec fn view(&self) -> StmtModel {
        self.model()
    }
}

impl View for FuncStmt {
    type V = FuncStmtModel;

    open spec fn view(&self) -> FuncStmtModel {
        FuncStmtModel {
            name: self.name@,
            params: token_models(self.params@),
            body: stmt_models(self.body@),
        }
    }
}

impl StmtModel {
    /// Whether every node of the tree carries a token of the kind that the
    /// node calls for: an identifier where a variable or a function is
    /// named, and in its expressions what [`ExprModel::well_formed`] asks.
    pub open spec fn well_formed(self) -> bool
        decreases self,
    {
        match self {
            StmtModel::Block(statements) => forall|i: int|
                0 <= i < statements.len() ==> (#[trigger] statements[i]).well_formed(),
            StmtModel::Expr(expr) => expr.well_formed(),
            StmtModel::Function(function) => {
                &&& function.name.token_type == TokenType::Identifier
                &&& forall|i: int|
                    0 <= i < function.body.len() ==> (#[trigger] function.body[i]).well_formed()
            },
            StmtModel::If(condition, then_branch, else_branch) => {
                &&& condition.well_formed()
                &&& then_branch.well_formed()
                &&& match else_branch {
                    Some(branch) => branch.well_formed(),
                    None => true,
                }
            },
            StmtModel::Print(expr) => expr.well_formed(),
            StmtModel::Var(name, initializer) => {
                &&& name.token_type == TokenType::Identifier
                &&& match initializer {
                    Some(expr) => expr.well_formed(),
                    None => true,
                }
            },
            StmtModel::While(condition, body) => condition.well_formed() && body.well_formed(),
            StmtModel::Ret(value) => match value {
                Some(expr) => expr.well_formed(),
                None => true,
            },
        }
    }
}

/// Whether every statement of the list is well formed.
pub open spec fn all_well_formed(statements: Seq<StmtModel>) -> bool {
    forall|i: int| 0 <= i < statements.len() ==> (#[trigger] statements[i]).well_formed()
}

/// The model of an optional statement.
pub open spec fn optional_stmt_model(statement: Option<Stmt>) -> Option<StmtModel> {
    match statement {
        Some(statement) => Some(statement@),
        None => None,
    }
}

/// The models of a sequence of statements.
pub open spec fn stmt_models(statements: Seq<Stmt>) -> Seq<StmtModel> {
    statements.map_values(|statement: Stmt| statement@)
}

/// The model of a block is the list of its statements' models.
pub proof fn lemma_block_model(statements: Vec<Stmt>)
    ensures
        Stmt::Block(statements)@ == StmtModel::Block(stmt_models(statements@)),
{
    assert(Stmt::Block(statements).model()->Block_0 =~= stmt_models(statements@));
}

/// The model of a function declaration is the model of its parts.
pub proof fn lemma_function_model(function: FuncStmt)
    ensures
        Stmt::Function(function)@ == StmtModel::Function(function@),
{
    let model = Stmt::Function(function).model()->Function_0;
    assert(model.body =~= stmt_models(function.body@));
}

} // verus!
