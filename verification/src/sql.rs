//! SQL statements with positional parameters, as the services build them
//! before handing them to the database.
use vstd::prelude::*;

use crate::text::{push_str, string_from_chars};

verus! {

/// A positional parameter of a statement.
#[derive(Debug, Clone, PartialEq)]
pub enum SqlParam {
    Text(String),
    Integer(i64),
}

/// A parameter as a plain value.
pub enum ParamView {
    Text(Seq<char>),
    Integer(int),
}

/// The plain value of a parameter.
pub open spec fn param_view(p: SqlParam) -> ParamView {
    match p {
        SqlParam::Text(s) => ParamView::Text(s@),
        SqlParam::Integer(i) => ParamView::Integer(i as int),
    }
}

/// The plain values of a parameter list.
pub open spec fn params_view(v: Seq<SqlParam>) -> Seq<ParamView> {
    v.map_values(|p: SqlParam| param_view(p))
}

/// A statement and its parameters, in order.
#[derive(Debug, Clone)]
pub struct QueryPlan {
    pub sql: String,
    pub params: Vec<SqlParam>,
}

/// `clause` when the filter is set, nothing otherwise.
pub open spec fn clause_if(set: bool, clause: Seq<char>) -> Seq<char> {
    if set {
        clause
    } else {
        Seq::empty()
    }
}

/// The text parameter of a set filter.
pub open spec fn text_param(o: Option<Seq<char>>) -> Seq<ParamView> {
    match o {
        Some(s) => seq![ParamView::Text(s)],
        None => Seq::empty(),
    }
}

/// The text of an optional string.
pub open spec fn opt_text(o: Option<String>) -> Option<Seq<char>> {
    match o {
        Some(s) => Some(s@),
        None => None,
    }
}

/// The integer parameter of a set filter.
pub open spec fn int_param(o: Option<int>) -> Seq<ParamView> {
    match o {
        Some(i) => seq![ParamView::Integer(i)],
        None => Seq::empty(),
    }
}

/// A statement under construction.
pub struct QueryBuilder {
    sql: Vec<char>,
    params: Vec<SqlParam>,
}

impl QueryBuilder {
    /// The statement so far.
    pub closed spec fn sql_view(&self) -> Seq<char> {
        self.sql@
    }

    /// The parameters so far.
    pub closed spec fn params_view(&self) -> Seq<ParamView> {
        params_view(self.params@)
    }

    /// A statement starting with `base`, with no parameter.
    pub fn new(base: &str) -> (b: Self)
        ensures
            b.sql_view() == base@,
            b.params_view() == Seq::<ParamView>::empty(),
    {
        let mut sql: Vec<char> = Vec::new();
        push_str(&mut sql, base);
        let b = QueryBuilder { sql, params: Vec::new() };
        assert(b.params_view() =~= Seq::<ParamView>::empty());
        b
    }

    /// Appends text to the statement.
    pub fn push_sql(&mut self, text: &str)
        ensures
            final(self).sql_view() == old(self).sql_view() + text@,
            final(self).params_view() == old(self).params_view(),
    {
        push_str(&mut self.sql, text);
    }

    /// Appends a parameter.
    pub fn push_param(&mut self, p: SqlParam)
        ensures
            final(self).sql_view() == old(self).sql_view(),
            final(self).params_view() == old(self).params_view().push(param_view(p)),
    {
        let ghost before = self.params@;
        self.params.push(p);
        assert(params_view(self.params@) =~= params_view(before).push(param_view(p)));
    }

    /// Appends `clause` and the value as a text parameter, if the value is set.
    pub fn text_filter(&mut self, clause: &str, value: &Option<String>)
        ensures
            final(self).sql_view() == old(self).sql_view() + clause_if(value is Some, clause@),
            final(self).params_view() == old(self).params_view() + text_param(opt_text(*value)),
    {
        match value {
            Some(v) => {
                self.push_sql(clause);
                self.push_param(SqlParam::Text(v.clone()));
                assert(old(self).params_view() + text_param(opt_text(*value)) =~= old(self).params_view().push(
                    ParamView::Text(v@),
                ));
            },
            None => {
                assert(self.sql_view() + clause_if(false, clause@) =~= self.sql_view());
                assert(self.params_view() + text_param(opt_text(*value)) =~= self.params_view());
            },
        }
    }

    /// Appends `clause` and the value as an integer parameter, if it is set.
    pub fn int_filter(&mut self, clause: &str, value: Option<i64>)
        ensures
            final(self).sql_view() == old(self).sql_view() + clause_if(value is Some, clause@),
            final(self).params_view() == old(self).params_view() + int_param(
                match value {
                    Some(i) => Some(i as int),
                    None => None,
                },
            ),
    {
        match value {
            Some(v) => {
                self.push_sql(clause);
                self.push_param(SqlParam::Integer(v));
                assert(old(self).params_view() + int_param(Some(v as int)) =~= old(self).params_view().push(
                    ParamView::Integer(v as int),
                ));
            },
            None => {
                assert(self.sql_view() + clause_if(false, clause@) =~= self.sql_view());
                assert(self.params_view() + int_param(None) =~= self.params_view());
            },
        }
    }

    /// The finished statement.
    pub fn finish(self) -> (q: QueryPlan)
        ensures
            q.sql@ == self.sql_view(),
            params_view(q.params@) == self.params_view(),
    {
        QueryPlan { sql: string_from_chars(&self.sql), params: self.params }
    }
}

} // verus!
