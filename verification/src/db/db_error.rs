use vstd::prelude::*;
use vstd::string::StringExecFns;

verus! {

/// What went wrong.
#[derive(Debug, Clone, Copy, PartialEq, Eq, Structural)]
pub enum DbErrorType {
    DbCreate,
    InvalidIndex,
    NotAllowed,
    NotEnoughData,
    NotFound,
    OutOfBounds,
    TypeError,
}

/// Which part of the database reported the error.
#[derive(Debug, Clone, Copy, PartialEq, Eq, Structural)]
pub enum DbErrorCategory {
    Collections,
    Db,
    Graph,
    Query,
    Serialization,
    Storage,
}

impl DbErrorType {
    /// The name of the error type as it is displayed.
    pub fn name(&self) -> (result: &'static str)
        ensures
            result@ == self.spec_name()@,
    {
        match self {
            DbErrorType::DbCreate => "DbCreate",
            DbErrorType::InvalidIndex => "InvalidIndex",
            DbErrorType::NotAllowed => "NotAllowed",
            DbErrorType::NotEnoughData => "NotEnoughData",
            DbErrorType::NotFound => "NotFound",
            DbErrorType::OutOfBounds => "OutOfBounds",
            DbErrorType::TypeError => "TypeError",
        }
    }

    pub open spec fn spec_name(&self) -> &'static str {
        match self {
            DbErrorType::DbCreate => "DbCreate",
            DbErrorType::InvalidIndex => "InvalidIndex",
            DbErrorType::NotAllowed => "NotAllowed",
            DbErrorType::NotEnoughData => "NotEnoughData",
            DbErrorType::NotFound => "NotFound",
            DbErrorType::OutOfBounds => "OutOfBounds",
            DbErrorType::TypeError => "TypeError",
        }
    }
}

impl DbErrorCategory {
    /// The name of the category as it is displayed.
    pub fn name(&self) -> (result: &'static str)
        ensures
            result@ == self.spec_name()@,
    {
        match self {
            DbErrorCategory::Collections => "Collections",
            DbErrorCategory::Db => "Db",
            DbErrorCategory::Graph => "Graph",
            DbErrorCategory::Query => "Query",
            DbErrorCategory::Serialization => "Serialization",
            DbErrorCategory::Storage => "Storage",
        }
    }

    pub open spec fn spec_name(&self) -> &'static str {
        match self {
            DbErrorCategory::Collections => "Collections",
            DbErrorCategory::Db => "Db",
            DbErrorCategory::Graph => "Graph",
            DbErrorCategory::Query => "Query",
            DbErrorCategory::Serialization => "Serialization",
            DbErrorCategory::Storage => "Storage",
        }
    }
}

/// Database error: a description, the reporting part, the kind of failure
/// and optionally the error that caused it.
#[derive(Debug)]
pub struct DbError {
    /// Error description
    pub description: String,
    /// Error category, e.g. graph, db, storage etc.
    pub category: DbErrorCategory,
    /// Error type, e.g. not found, not enough data etc.
    pub ty: DbErrorType,
    /// Optional error that caused this error
    pub cause: Option<Box<DbError>>,
}

impl DbError {
    /// Creates an error with an explicit category and type.
    pub fn new(category: DbErrorCategory, ty: DbErrorType, description: &str) -> (result: Self)
        ensures
            result.description@ == description@,
            result.category == category,
            result.ty == ty,
            result.cause is None,
    {
        DbError { description: description.to_owned(), category, ty, cause: None }
    }

    pub fn collections(ty: DbErrorType, description: &str) -> (result: Self)
        ensures
            result.description@ == description@,
            result.category == DbErrorCategory::Collections,
            result.ty == ty,
            result.cause is None,
    {
        Self::new(DbErrorCategory::Collections, ty, description)
    }

    pub fn db(ty: DbErrorType, description: &str) -> (result: Self)
        ensures
            result.description@ == description@,
            result.category == DbErrorCategory::Db,
            result.ty == ty,
            result.cause is None,
    {
        Self::new(DbErrorCategory::Db, ty, description)
    }

    pub fn graph(ty: DbErrorType, description: &str) -> (result: Self)
        ensures
            result.description@ == description@,
            result.category == DbErrorCategory::Graph,
            result.ty == ty,
            result.cause is None,
    {
        Self::new(DbErrorCategory::Graph, ty, description)
    }

    pub fn query(ty: DbErrorType, description: &str) -> (result: Self)
        ensures
            result.description@ == description@,
            result.category == DbErrorCategory::Query,
            result.ty == ty,
            result.cause is None,
    {
        Self::new(DbErrorCategory::Query, ty, description)
    }

    pub fn serialization(ty: DbErrorType, description: &str) -> (result: Self)
        ensures
            result.description@ == description@,
            result.category == DbErrorCategory::Serialization,
            result.ty == ty,
            result.cause is None,
    {
        Self::new(DbErrorCategory::Serialization, ty, description)
    }

    pub fn storage(ty: DbErrorType, description: &str) -> (result: Self)
        ensures
            result.description@ == description@,
            result.category == DbErrorCategory::Storage,
            result.ty == ty,
            result.cause is None,
    {
        Self::new(DbErrorCategory::Storage, ty, description)
    }

    /// Sets the `cause` of this error to `error`.
    pub fn caused_by(self, error: Self) -> (result: Self)
        ensures
            result.description == self.description,
            result.category == self.category,
            result.ty == self.ty,
            result.cause == Some(Box::new(error)),
    {
        let mut s = self;
        s.cause = Some(Box::new(error));
        s
    }

    /// The error that caused this one, if any.
    pub fn source(&self) -> (result: Option<&DbError>)
        ensures
            result matches Some(e) ==> self.cause == Some(Box::new(*e)),
            result is None <==> self.cause is None,
    {
        match &self.cause {
            Some(cause) => Some(&**cause),
            None => None,
        }
    }
}

/// The text of an error: "[Category:Type] description", followed for an
/// error with a cause by a line "caused by" and the cause's text indented.
pub open spec fn error_text(e: DbError) -> Seq<char>
    decreases e,
{
    let head = "["@ + e.category.spec_name()@ + ":"@ + e.ty.spec_name()@ + "] "@ + e.description@;
    match e.cause {
        Some(cause) => head + "\ncaused by\n  "@ + error_text(*cause),
        None => head,
    }
}

impl DbError {
    /// The error as text, as `error_text` lays it out (without the place in
    /// the sources where it was made).
    pub fn to_text(&self) -> (result: String)
        ensures
            result@ == error_text(*self),
        decreases self,
    {
        let mut text = String::from_str("[");
        text.append(self.category.name());
        text.append(":");
        text.append(self.ty.name());
        text.append("] ");
        text.append(self.description.as_str());
        match &self.cause {
            Some(cause) => {
                text.append("\ncaused by\n  ");
                let inner = (&**cause).to_text();
                text.append(inner.as_str());
            },
            None => {},
        }
        text
    }
}

/// Two errors are equal when their descriptions, their types and their causes
/// are; the category is not compared.
pub open spec fn errors_match(a: DbError, b: DbError) -> bool
    decreases a,
{
    &&& a.description@ == b.description@
    &&& a.ty == b.ty
    &&& match (a.cause, b.cause) {
        (None, None) => true,
        (Some(x), Some(y)) => errors_match(*x, *y),
        _ => false,
    }
}

impl PartialEq for DbError {
    fn eq(&self, other: &Self) -> (result: bool)
        decreases self,
    {
        if self.description != other.description || self.ty != other.ty {
            return false;
        }
        match (&self.cause, &other.cause) {
            (None, None) => true,
            (Some(x), Some(y)) => (&**x).eq(&**y),
            _ => false,
        }
    }
}

impl vstd::std_specs::cmp::PartialEqSpecImpl for DbError {
    open spec fn obeys_eq_spec() -> bool {
        true
    }

    open spec fn eq_spec(&self, other: &DbError) -> bool {
        errors_match(*self, *other)
    }
}

/// Each error type is displayed under a name of its own.
pub proof fn law_type_names_distinct(a: DbErrorType, b: DbErrorType)
    ensures
        a.spec_name()@ == b.spec_name()@ <==> a == b,
{
    reveal_strlit("DbCreate");
    reveal_strlit("InvalidIndex");
    reveal_strlit("NotAllowed");
    reveal_strlit("NotEnoughData");
    reveal_strlit("NotFound");
    reveal_strlit("OutOfBounds");
    reveal_strlit("TypeError");
    let na = a.spec_name()@;
    let nb = b.spec_name()@;
    if na == nb {
        assert(na.len() == nb.len());
        assert(na[0] == nb[0]);
    }
    match a {
        DbErrorType::DbCreate => {},
        DbErrorType::InvalidIndex => {},
        DbErrorType::NotAllowed => {},
        DbErrorType::NotEnoughData => {},
        DbErrorType::NotFound => {},
        DbErrorType::OutOfBounds => {},
        DbErrorType::TypeError => {},
    }
}

/// Each error category is displayed under a name of its own.
pub proof fn law_category_names_distinct(a: DbErrorCategory, b: DbErrorCategory)
    ensures
        a.spec_name()@ == b.spec_name()@ <==> a == b,
{
    reveal_strlit("Collections");
    reveal_strlit("Db");
    reveal_strlit("Graph");
    reveal_strlit("Query");
    reveal_strlit("Serialization");
    reveal_strlit("Storage");
    let na = a.spec_name()@;
    let nb = b.spec_name()@;
    if na == nb {
        assert(na.len() == nb.len());
        assert(na[0] == nb[0]);
    }
    match a {
        DbErrorCategory::Collections => {},
        DbErrorCategory::Db => {},
        DbErrorCategory::Graph => {},
        DbErrorCategory::Query => {},
        DbErrorCategory::Serialization => {},
        DbErrorCategory::Storage => {},
    }
}

/// The text of an error with a cause is the text the error would have
/// without it, then a line "caused by", then the cause's text indented.
pub proof fn law_cause_text(e: DbError)
    requires
        e.cause is Some,
    ensures
        error_text(e) == error_text(
            DbError { description: e.description, category: e.category, ty: e.ty, cause: None },
        ) + "\ncaused by\n  "@ + error_text(*e.cause.unwrap()),
{
}

/// The text of an error starts with its category and type in brackets and,
/// without a cause, ends with its description.
pub proof fn law_text_head(e: DbError)
    ensures
        error_text(e).len() > 0,
        error_text(e)[0] == '[',
        e.cause is None ==> error_text(e).subrange(
            error_text(e).len() - e.description@.len(),
            error_text(e).len() as int,
        ) == e.description@,
{
    reveal_strlit("[");
    let head = "["@ + e.category.spec_name()@ + ":"@ + e.ty.spec_name()@ + "] "@;
    assert(error_text(e).len() >= head.len() + e.description@.len());
    assert(head[0] == '[');
    if e.cause is None {
        assert(error_text(e) == head + e.description@);
        assert(error_text(e).subrange(head.len() as int, error_text(e).len() as int) =~= e.description@);
    } else {
        let t = head + e.description@;
        assert(error_text(e)[0] == t[0]);
    }
}

} // verus!
