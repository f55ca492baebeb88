//! Statements for the database: the text, and the values bound to its parameters.
use vstd::prelude::*;

verus! {

/// A value bound to a parameter.
#[derive(Debug, PartialEq, Eq)]
pub enum SqlValue {
    /// An integer.
    Int(i64),
    /// A text.
    Text(String),
}

/// What a bound value stands for.
pub enum Bound {
    /// An integer.
    Int(i64),
    /// A text.
    Text(Seq<char>),
}

impl View for SqlValue {
    type V = Bound;

    open spec fn view(&self) -> Bound {
        match self {
            SqlValue::Int(n) => Bound::Int(*n),
            SqlValue::Text(text) => Bound::Text(text@),
        }
    }
}

/// A statement: the first value is bound to the first parameter, and so on.
#[derive(Debug, PartialEq, Eq)]
pub struct Statement {
    /// The text of the statement.
    pub sql: &'static str,
    /// The values bound to its parameters.
    pub args: Vec<SqlValue>,
}

impl Statement {
    /// What the bound values stand for.
    pub open spec fn bounds(&self) -> Seq<Bound> {
        self.args@.map_values(|arg: SqlValue| arg@)
    }

    /// Whether the statement has this text and these bound values.
    pub open spec fn says(&self, sql: Seq<char>, bounds: Seq<Bound>) -> bool {
        self.sql@ == sql && self.bounds() =~= bounds
    }

    /// A statement without parameters.
    pub fn new(sql: &'static str) -> (res: Statement)
        ensures
            res.says(sql@, Seq::empty()),
    {
        Statement { sql, args: Vec::new() }
    }

    /// The statement with one more bound integer.
    pub fn bind_int(self, n: i64) -> (res: Statement)
        ensures
            res.says(self.sql@, self.bounds().push(Bound::Int(n))),
    {
        let mut res = self;
        res.args.push(SqlValue::Int(n));
        res
    }

    /// The statement with one more bound text.
    pub fn bind_text(self, text: &str) -> (res: Statement)
        ensures
            res.says(self.sql@, self.bounds().push(Bound::Text(text@))),
    {
        let mut res = self;
        res.args.push(SqlValue::Text(text.to_owned()));
        res
    }
}

/// A statement says its own text and its own bound values, none left out and in order.
pub proof fn law_says(statement: Statement, sql: Seq<char>, bounds: Seq<Bound>)
    ensures
        statement.says(sql, bounds) <==> {
            &&& statement.sql@ == sql
            &&& statement.args@.len() == bounds.len()
            &&& forall|i: int|
                0 <= i < bounds.len() ==> (match #[trigger] statement.args@[i] {
                    SqlValue::Int(n) => bounds[i] == Bound::Int(n),
                    SqlValue::Text(text) => bounds[i] == Bound::Text(text@),
                })
        },
{
    let said = statement.bounds();
    if statement.says(sql, bounds) {
        assert forall|i: int| 0 <= i < bounds.len() implies (
        match #[trigger] statement.args@[i] {
            SqlValue::Int(n) => bounds[i] == Bound::Int(n),
            SqlValue::Text(text) => bounds[i] == Bound::Text(text@),
        }) by {
            assert(said[i] == bounds[i]);
            assert(said[i] == statement.args@[i]@);
        }
    }
    if statement.args@.len() == bounds.len() && forall|i: int|
        0 <= i < bounds.len() ==> (match #[trigger] statement.args@[i] {
            SqlValue::Int(n) => bounds[i] == Bound::Int(n),
            SqlValue::Text(text) => bounds[i] == Bound::Text(text@),
        }) {
        assert forall|i: int| 0 <= i < bounds.len() implies said[i] == bounds[i] by {
            assert(said[i] == statement.args@[i]@);
        }
        assert(said =~= bounds);
    }
}

} // verus!
