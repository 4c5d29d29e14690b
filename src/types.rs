//! The reply and error model shared by the encoder and the decoder, and the
//! conversion of typed values into command arguments.
use vstd::prelude::*;

verus! {

/// Error kinds
#[derive(PartialEq, Eq, Clone, Debug)]
pub enum ErrorKind {
    /// invalid server response
    ResponseError,
    /// The authentication with server failed
    AuthenticationFailed,
    /// Operation failed because of a type mismatch
    TypeError,
    /// A script execution was aborted
    ExecAbortError,
    /// The server can't response because it's busy
    BusyLoadingError,
    /// A script that was requested does not actually exists
    NoScriptError,
    /// A error that is unknown to the library.
    ExtensionError(String),
    /// IoError
    IoError,
}

/// Mathematical model of an [`ErrorKind`].
pub enum Kind {
    Response,
    AuthenticationFailed,
    Type,
    ExecAbort,
    BusyLoading,
    NoScript,
    Extension(Seq<char>),
    Io,
}

impl View for ErrorKind {
    type V = Kind;

    open spec fn view(&self) -> Kind {
        match self {
            ErrorKind::ResponseError => Kind::Response,
            ErrorKind::AuthenticationFailed => Kind::AuthenticationFailed,
            ErrorKind::TypeError => Kind::Type,
            ErrorKind::ExecAbortError => Kind::ExecAbort,
            ErrorKind::BusyLoadingError => Kind::BusyLoading,
            ErrorKind::NoScriptError => Kind::NoScript,
            ErrorKind::ExtensionError(code) => Kind::Extension(code@),
            ErrorKind::IoError => Kind::Io,
        }
    }
}

/// Redis Value Enum
#[derive(PartialEq, Eq, Debug)]
pub enum Value {
    /// nil response
    Nil,
    /// integer response
    Int(i64),
    /// an arbiary binary data
    Data(Vec<u8>),
    /// nested structures response
    Bulk(Vec<Value>),
    /// a status response, normally a string
    Status(String),
    /// "OK" response
    Okay,
}

/// Mathematical model of a [`Value`]: the same shape, with sequences in place
/// of vectors and strings.
pub enum Reply {
    Nil,
    Int(i64),
    Data(Seq<u8>),
    Bulk(Seq<Reply>),
    Status(Seq<char>),
    Okay,
}

impl View for Value {
    type V = Reply;

    open spec fn view(&self) -> Reply
        decreases self,
    {
        match self {
            Value::Nil => Reply::Nil,
            Value::Int(n) => Reply::Int(*n),
            Value::Data(d) => Reply::Data(d@),
            Value::Bulk(items) => Reply::Bulk(replies(items@)),
            Value::Status(s) => Reply::Status(s@),
            Value::Okay => Reply::Okay,
        }
    }
}

impl Value {
    /// A copy of the value, at every depth.
    fn deep_clone(&self) -> (r: Value)
        ensures
            r@ == self@,
        decreases self,
    {
        match self {
            Value::Nil => Value::Nil,
            Value::Int(n) => Value::Int(*n),
            Value::Data(d) => Value::Data(d.clone()),
            Value::Bulk(items) => {
                let mut rv: Vec<Value> = Vec::new();
                let mut i: usize = 0;
                while i < items.len()
                    invariant
                        *self == Value::Bulk(*items),
                        i <= items@.len(),
                        replies(rv@) == replies(items@.subrange(0, i as int)),
                    decreases items@.len() - i,
                {
                    proof {
                        vstd::std_specs::vec::axiom_vec_index_decreases(*items, i as int);
                        assert(decreases_to!(*self => self->Bulk_0));
                        assert(decreases_to!(*self => items[i as int]));
                    }
                    let v = items[i].deep_clone();
                    proof {
                        assert(rv@.push(v).drop_last() =~= rv@);
                        assert(items@.subrange(0, i + 1).drop_last() =~= items@.subrange(0, i as int));
                    }
                    rv.push(v);
                    i = i + 1;
                }
                assert(items@.subrange(0, i as int) =~= items@);
                Value::Bulk(rv)
            },
            Value::Status(s) => Value::Status(s.clone()),
            Value::Okay => Value::Okay,
        }
    }
}

impl Clone for Value {
    fn clone(&self) -> (r: Value)
        ensures
            r@ == self@,
    {
        self.deep_clone()
    }
}

/// The models of a sequence of values, element by element.
pub open spec fn replies(items: Seq<Value>) -> Seq<Reply>
    decreases items,
{
    if items.len() == 0 {
        Seq::empty()
    } else {
        replies(items.drop_last()).push(items.last()@)
    }
}

#[derive(PartialEq, Eq, Clone, Debug)]
pub struct RedisError {
    pub kind: ErrorKind,
    pub desc: &'static str,
    pub detail: Option<String>,
}

/// Mathematical model of a [`RedisError`].
pub struct Fault {
    pub kind: Kind,
    pub desc: Seq<char>,
    pub detail: Option<Seq<char>>,
}

/// The model of an optional detail text.
pub open spec fn detail_of(d: Option<String>) -> Option<Seq<char>> {
    match d {
        Some(s) => Some(s@),
        None => None,
    }
}

impl View for RedisError {
    type V = Fault;

    open spec fn view(&self) -> Fault {
        Fault { kind: self.kind@, desc: self.desc@, detail: detail_of(self.detail) }
    }
}

impl From<(ErrorKind, &'static str)> for RedisError {
    fn from(e: (ErrorKind, &'static str)) -> (r: RedisError)
        ensures
            r == (RedisError { kind: e.0, desc: e.1, detail: None }),
    {
        RedisError { kind: e.0, desc: e.1, detail: None }
    }
}

impl vstd::std_specs::convert::FromSpecImpl<(ErrorKind, &'static str)> for RedisError {
    open spec fn obeys_from_spec() -> bool {
        true
    }

    open spec fn from_spec(e: (ErrorKind, &'static str)) -> RedisError {
        RedisError { kind: e.0, desc: e.1, detail: None }
    }
}

impl From<(ErrorKind, &'static str, String)> for RedisError {
    fn from(e: (ErrorKind, &'static str, String)) -> (r: RedisError)
        ensures
            r == (RedisError { kind: e.0, desc: e.1, detail: Some(e.2) }),
    {
        RedisError { kind: e.0, desc: e.1, detail: Some(e.2) }
    }
}

impl vstd::std_specs::convert::FromSpecImpl<(ErrorKind, &'static str, String)> for RedisError {
    open spec fn obeys_from_spec() -> bool {
        true
    }

    open spec fn from_spec(e: (ErrorKind, &'static str, String)) -> RedisError {
        RedisError { kind: e.0, desc: e.1, detail: Some(e.2) }
    }
}

pub type RedisResult<T> = Result<T, RedisError>;

#[derive(Clone, Copy, PartialEq, Eq, Debug, Structural)]
pub enum NumericBehavior {
    NonNumeric,
    NumericInteger,
    NumericFloat,
}

/// The byte contents of a list of argument blocks.
pub open spec fn blocks(v: Seq<Vec<u8>>) -> Seq<Seq<u8>> {
    v.map_values(|b: Vec<u8>| b@)
}

/// This trait used to convert a value into one or multiple redis commands arguments
pub trait ToRedisArgs: Sized {
    /// The argument blocks that the value converts to, in order.
    spec fn arg_blocks(&self) -> Seq<Seq<u8>>;

    /// Whether the value may be used as a number.
    open spec fn numeric(&self) -> NumericBehavior {
        NumericBehavior::NonNumeric
    }

    /// Whether the value stands as one argument.
    open spec fn single(&self) -> bool {
        true
    }

    /// The argument blocks of a sequence of such values.
    open spec fn seq_blocks(items: Seq<Self>) -> Seq<Seq<u8>> {
        flatten_blocks(items.map_values(|x: Self| x.arg_blocks()))
    }

    /// Whether a sequence of such values stands as one argument.
    open spec fn seq_single(items: Seq<Self>) -> bool {
        items.len() == 1 && items[0].single()
    }

    /// The argument blocks, in order.
    fn to_redis_args(&self) -> (r: Vec<Vec<u8>>)
        ensures
            blocks(r@) == self.arg_blocks(),
    ;

    /// Whether the value may be used as a number.
    fn describe_numberic_behavior(&self) -> (r: NumericBehavior)
        ensures
            r == self.numeric(),
    ;

    /// Whether the value stands as one argument, rather than expanding into
    /// several.
    fn is_single_arg(&self) -> (r: bool)
        ensures
            r == self.single(),
    ;

    /// The argument blocks of a sequence of such values.
    fn make_arg_vec(items: &[Self]) -> (r: Vec<Vec<u8>>)
        ensures
            blocks(r@) == Self::seq_blocks(items@),
    ;

    /// Whether a sequence of such values stands as one argument.
    fn is_single_vec_arg(items: &[Self]) -> (r: bool)
        ensures
            r == Self::seq_single(items@),
    ;
}

/// The blocks of each group, one group after the other.
pub open spec fn flatten_blocks(s: Seq<Seq<Seq<u8>>>) -> Seq<Seq<u8>>
    decreases s.len(),
{
    if s.len() == 0 {
        Seq::empty()
    } else {
        flatten_blocks(s.drop_last()) + s.last()
    }
}

/// One more group of blocks extends the blocks of the groups before it.
pub proof fn lemma_flatten_step(g: Seq<Seq<Seq<u8>>>, i: int, done: Seq<Vec<u8>>, next: Seq<Vec<u8>>)
    requires
        0 <= i < g.len(),
        blocks(done) == flatten_blocks(g.subrange(0, i)),
        blocks(next) == g[i],
    ensures
        blocks(done + next) == flatten_blocks(g.subrange(0, i + 1)),
{
    assert(g.subrange(0, i + 1).drop_last() =~= g.subrange(0, i));
    assert(blocks(done + next) =~= blocks(done) + blocks(next));
}

} // verus!
