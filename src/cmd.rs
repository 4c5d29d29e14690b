//! Commands and their wire form: an array of bulk strings, with an optional
//! cursor argument whose value is supplied when the command is packed.
use crate::text::{countdigits, decimal, lemma_decimal_len_u64, write_decimal};
use crate::types::{blocks, ToRedisArgs};
use vstd::prelude::*;

verus! {

/// One argument of a command: its bytes, or the place of the cursor.
pub enum Token {
    Bytes(Seq<u8>),
    Cursor,
}

#[derive(Clone)]
enum Arg {
    Simple(Vec<u8>),
    Cursor,
}

impl Arg {
    spec fn token(&self) -> Token {
        match self {
            Arg::Simple(v) => Token::Bytes(v@),
            Arg::Cursor => Token::Cursor,
        }
    }
}

/// Mathematical model of a [`Cmd`].
pub struct CmdModel {
    /// The arguments, command name first.
    pub args: Seq<Token>,
    /// The cursor recorded by the last cursor argument.
    pub cursor: Option<u64>,
}

#[derive(Clone)]
pub struct Cmd {
    args: Vec<Arg>,
    cursor: Option<u64>,
    is_ignored: bool,
}

#[derive(Clone)]
pub struct Pipeline {
    commands: Vec<Cmd>,
    transaction_mode: bool,
}

/// `\r\n`
pub open spec fn crlf() -> Seq<u8> {
    seq![13u8, 10u8]
}

/// The bytes that stand for `t` when the cursor is `cursor`.
pub open spec fn rendered(t: Token, cursor: u64) -> Seq<u8> {
    match t {
        Token::Bytes(b) => b,
        Token::Cursor => decimal(cursor as nat),
    }
}

/// A bulk string: `$`, the decimal length, `\r\n`, the bytes, `\r\n`.
pub open spec fn bulk_string(b: Seq<u8>) -> Seq<u8> {
    seq![36u8] + decimal(b.len()) + crlf() + b + crlf()
}

/// The bulk strings of all arguments, in order.
pub open spec fn packed_args(args: Seq<Token>, cursor: u64) -> Seq<u8>
    decreases args.len(),
{
    if args.len() == 0 {
        Seq::empty()
    } else {
        packed_args(args.drop_last(), cursor) + bulk_string(rendered(args.last(), cursor))
    }
}

/// The wire form of a command: `*`, the decimal argument count, `\r\n`, then
/// one bulk string per argument.
pub open spec fn packed(args: Seq<Token>, cursor: u64) -> Seq<u8> {
    seq![42u8] + decimal(args.len()) + crlf() + packed_args(args, cursor)
}

/// The length of a bulk string holding `len` bytes.
pub fn bulklen(len: usize) -> (r: usize)
    requires
        1 + decimal(len as nat).len() + 2 + len + 2 <= usize::MAX,
    ensures
        r == 1 + decimal(len as nat).len() + 2 + len + 2,
{
    proof {
        lemma_decimal_len_u64(len as nat);
    }
    1 + countdigits(len as u64) + 2 + len + 2
}

proof fn lemma_packed_args_prefix(args: Seq<Token>, cursor: u64, i: int)
    requires
        0 <= i <= args.len(),
    ensures
        packed_args(args.subrange(0, i), cursor).len() <= packed_args(args, cursor).len(),
    decreases args.len() - i,
{
    if i < args.len() {
        lemma_packed_args_prefix(args, cursor, i + 1);
        assert(args.subrange(0, i + 1).drop_last() =~= args.subrange(0, i));
    } else {
        assert(args.subrange(0, i) =~= args);
    }
}

/// Appends `item` as a bulk string.
fn push_bulk(out: &mut Vec<u8>, item: &[u8])
    ensures
        final(out)@ == old(out)@ + bulk_string(item@),
{
    out.push(36u8);
    write_decimal(out, item.len() as u64);
    out.push(13u8);
    out.push(10u8);
    let ghost mid = out@;
    let mut i: usize = 0;
    while i < item.len()
        invariant
            i <= item@.len(),
            out@ == mid + item@.subrange(0, i as int),
        decreases item@.len() - i,
    {
        out.push(item[i]);
        i = i + 1;
        assert(out@ =~= mid + item@.subrange(0, i as int));
    }
    out.push(13u8);
    out.push(10u8);
    assert(final(out)@ =~= old(out)@ + bulk_string(item@));
}

spec fn tokens(args: Seq<Arg>) -> Seq<Token> {
    args.map_values(|a: Arg| a.token())
}

/// Packs `args` with the cursor argument, if any, standing for `cursor`.
fn encode_commands(args: &Vec<Arg>, cursor: u64) -> (r: Vec<u8>)
    requires
        packed(tokens(args@), cursor).len() <= usize::MAX,
    ensures
        r@ == packed(tokens(args@), cursor),
{
    let ghost ts = tokens(args@);
    proof {
        lemma_decimal_len_u64(cursor as nat);
    }
    let count = args.len();
    proof {
        lemma_decimal_len_u64(count as nat);
    }
    let mut totlen: usize = 1 + countdigits(count as u64) + 2;
    let mut i: usize = 0;
    while i < args.len()
        invariant
            ts == tokens(args@),
            packed(ts, cursor).len() <= usize::MAX,
            i <= args@.len(),
            totlen == 1 + decimal(ts.len()).len() + 2 + packed_args(ts.subrange(0, i as int), cursor).len(),
            decimal(cursor as nat).len() <= 20,
        decreases args@.len() - i,
    {
        proof {
            lemma_packed_args_prefix(ts, cursor, i + 1);
            assert(ts.subrange(0, i + 1).drop_last() =~= ts.subrange(0, i as int));
        }
        let n = match &args[i] {
            Arg::Cursor => countdigits(cursor),
            Arg::Simple(v) => v.len(),
        };
        totlen = totlen + bulklen(n);
        i = i + 1;
    }
    let mut cmd: Vec<u8> = Vec::with_capacity(totlen);
    cmd.push(42u8);
    write_decimal(&mut cmd, args.len() as u64);
    cmd.push(13u8);
    cmd.push(10u8);
    let ghost head = cmd@;
    let mut cursor_text: Vec<u8> = Vec::new();
    write_decimal(&mut cursor_text, cursor);
    let mut i: usize = 0;
    while i < args.len()
        invariant
            ts == tokens(args@),
            cursor_text@ == decimal(cursor as nat),
            i <= args@.len(),
            cmd@ == head + packed_args(ts.subrange(0, i as int), cursor),
        decreases args@.len() - i,
    {
        proof {
            assert(ts.subrange(0, i + 1).drop_last() =~= ts.subrange(0, i as int));
        }
        match &args[i] {
            Arg::Cursor => push_bulk(&mut cmd, cursor_text.as_slice()),
            Arg::Simple(v) => push_bulk(&mut cmd, v.as_slice()),
        }
        i = i + 1;
        assert(cmd@ =~= head + packed_args(ts.subrange(0, i as int), cursor));
    }
    proof {
        assert(ts.subrange(0, i as int) =~= ts);
    }
    cmd
}

impl View for Cmd {
    type V = CmdModel;

    closed spec fn view(&self) -> CmdModel {
        CmdModel { args: tokens(self.args@), cursor: self.cursor }
    }
}

impl Cmd {
    /// An empty command: no arguments and no cursor.
    pub fn new() -> (c: Cmd)
        ensures
            c@.args == Seq::<Token>::empty(),
            c@.cursor == None::<u64>,
    {
        let c = Cmd { args: Vec::new(), cursor: None, is_ignored: false };
        assert(c@.args =~= Seq::<Token>::empty());
        c
    }

    /// Appends the blocks that `arg` converts to, each as one argument.
    pub fn arg<T: ToRedisArgs>(&mut self, arg: T) -> (r: &mut Cmd)
        ensures
            r@.args == old(self)@.args + arg.arg_blocks().map_values(|b: Seq<u8>| Token::Bytes(b)),
            r@.cursor == old(self)@.cursor,
            *final(self) == *final(r),
    {
        let mut items = arg.to_redis_args();
        let ghost bs = blocks(items@);
        let ghost start = self@.args;
        let mut i: usize = 0;
        while i < items.len()
            invariant
                i <= items@.len(),
                self@.cursor == old(self)@.cursor,
                start == old(self)@.args,
                items@.len() == bs.len(),
                forall|k: int| i <= k < bs.len() ==> #[trigger] items@[k]@ == bs[k],
                self@.args == start + bs.subrange(0, i as int).map_values(
                    |b: Seq<u8>| Token::Bytes(b),
                ),
            decreases items@.len() - i,
        {
            let mut b: Vec<u8> = Vec::new();
            items.set_and_swap(i, &mut b);
            assert(b@ == bs[i as int]);
            let ghost before = self.args@;
            self.args.push(Arg::Simple(b));
            assert(tokens(self.args@) =~= tokens(before).push(Token::Bytes(bs[i as int])));
            assert(bs.subrange(0, i + 1).map_values(|b: Seq<u8>| Token::Bytes(b)) =~= bs.subrange(
                0,
                i as int,
            ).map_values(|b: Seq<u8>| Token::Bytes(b)).push(Token::Bytes(bs[i as int])));
            i = i + 1;
            assert(self@.args =~= start + bs.subrange(0, i as int).map_values(
                |b: Seq<u8>| Token::Bytes(b),
            ));
        }
        assert(bs.subrange(0, i as int) =~= bs);
        self
    }

    /// Appends the cursor argument and records `cursor` as its value.
    pub fn cursor_arg(&mut self, cursor: u64) -> (r: &mut Cmd)
        ensures
            r@.args == old(self)@.args.push(Token::Cursor),
            r@.cursor == Some(cursor),
            *final(self) == *final(r),
    {
        self.cursor = Some(cursor);
        self.args.push(Arg::Cursor);
        assert(self@.args =~= old(self)@.args.push(Token::Cursor));
        self
    }

    /// The wire form, with the recorded cursor (0 if there is none).
    pub fn get_packed_command(&self) -> (r: Vec<u8>)
        requires
            packed(self@.args, cursor_or_zero(self@.cursor)).len() <= usize::MAX,
        ensures
            r@ == packed(self@.args, cursor_or_zero(self@.cursor)),
    {
        let c = match self.cursor {
            Some(c) => c,
            None => 0,
        };
        encode_commands(&self.args, c)
    }

    /// The wire form with `cursor` in place of the recorded one; `None` when
    /// the command has no cursor argument.
    pub fn get_packed_command_with_cursor(&self, cursor: u64) -> (r: Option<Vec<u8>>)
        requires
            packed(self@.args, cursor).len() <= usize::MAX,
        ensures
            r is None <==> self@.cursor is None,
            r is Some ==> r->Some_0@ == packed(self@.args, cursor),
    {
        if !self.in_scan_mode() {
            None
        } else {
            Some(encode_commands(&self.args, cursor))
        }
    }

    /// Whether the command has a cursor argument.
    pub fn in_scan_mode(&self) -> (r: bool)
        ensures
            r == self@.cursor is Some,
    {
        self.cursor.is_some()
    }
}

/// The arguments with the cursor argument replaced by the decimal text of
/// `cursor`.
pub open spec fn resolved(args: Seq<Token>, cursor: u64) -> Seq<Token> {
    args.map_values(|t: Token| Token::Bytes(rendered(t, cursor)))
}

/// Packing with a cursor writes the decimal text of that cursor in place of
/// the cursor argument, with its length header computed from that text: the
/// result is the packing of the same command with the cursor argument
/// replaced by that text, whatever cursor was recorded before.
pub proof fn lemma_cursor_substitution(args: Seq<Token>, cursor: u64, other: u64)
    ensures
        packed(args, cursor) == packed(resolved(args, cursor), other),
    decreases args.len(),
{
    lemma_packed_args_resolved(args, cursor, other);
}

proof fn lemma_packed_args_resolved(args: Seq<Token>, cursor: u64, other: u64)
    ensures
        packed_args(args, cursor) == packed_args(resolved(args, cursor), other),
    decreases args.len(),
{
    if args.len() > 0 {
        lemma_packed_args_resolved(args.drop_last(), cursor, other);
        assert(resolved(args, cursor).drop_last() =~= resolved(args.drop_last(), cursor));
    }
}

/// The recorded cursor, or 0.
pub open spec fn cursor_or_zero(c: Option<u64>) -> u64 {
    match c {
        Some(v) => v,
        None => 0,
    }
}

/// A command of one argument, its name, with no cursor.
pub open spec fn plain_command(name: Seq<u8>) -> CmdModel {
    CmdModel { args: seq![Token::Bytes(name)], cursor: None }
}

/// The command that opens a transaction.
pub open spec fn multi_command() -> CmdModel {
    plain_command(seq![77u8, 85u8, 76u8, 84u8, 73u8])
}

/// The command that commits a transaction.
pub open spec fn exec_command() -> CmdModel {
    plain_command(seq![69u8, 88u8, 69u8, 67u8])
}

/// The wire form of a command, with its recorded cursor (0 if none).
pub open spec fn packed_command(c: CmdModel) -> Seq<u8> {
    packed(c.args, cursor_or_zero(c.cursor))
}

/// The wire forms of the commands, one after the other.
pub open spec fn packed_commands(cmds: Seq<CmdModel>) -> Seq<u8>
    decreases cmds.len(),
{
    if cmds.len() == 0 {
        Seq::empty()
    } else {
        packed_commands(cmds.drop_last()) + packed_command(cmds.last())
    }
}

/// The wire form of a batch: the commands in order, and in a transaction
/// between the opening and the committing command.
pub open spec fn packed_pipeline(cmds: Seq<CmdModel>, transaction: bool) -> Seq<u8> {
    if transaction {
        packed_command(multi_command()) + packed_commands(cmds) + packed_command(exec_command())
    } else {
        packed_commands(cmds)
    }
}

/// Mathematical model of a [`Pipeline`].
pub struct PipelineModel {
    pub commands: Seq<CmdModel>,
    pub transaction: bool,
}

impl View for Pipeline {
    type V = PipelineModel;

    closed spec fn view(&self) -> PipelineModel {
        PipelineModel {
            commands: self.commands@.map_values(|c: Cmd| c@),
            transaction: self.transaction_mode,
        }
    }
}

proof fn lemma_packed_commands_prefix(cmds: Seq<CmdModel>, i: int)
    requires
        0 <= i <= cmds.len(),
    ensures
        packed_commands(cmds.subrange(0, i)).len() <= packed_commands(cmds).len(),
    decreases cmds.len() - i,
{
    if i < cmds.len() {
        lemma_packed_commands_prefix(cmds, i + 1);
        assert(cmds.subrange(0, i + 1).drop_last() =~= cmds.subrange(0, i));
    } else {
        assert(cmds.subrange(0, i) =~= cmds);
    }
}

/// Appends the wire form of a command of one argument, `name`.
fn push_plain_command(out: &mut Vec<u8>, name: Vec<u8>)
    requires
        name@.len() < 10,
    ensures
        final(out)@ == old(out)@ + packed_command(plain_command(name@)),
{
    let mut c = Cmd::new();
    c.args.push(Arg::Simple(name));
    proof {
        assert(c@.args =~= seq![Token::Bytes(name@)]);
        reveal_with_fuel(decimal, 2);
        reveal_with_fuel(packed_args, 2);
        assert(c@.args.drop_last() =~= Seq::<Token>::empty());
        assert(packed(c@.args, 0).len() < 100);
    }
    let mut b = c.get_packed_command();
    out.append(&mut b);
}

impl Pipeline {
    /// An empty batch, not a transaction.
    pub fn new() -> (p: Pipeline)
        ensures
            p@.commands == Seq::<CmdModel>::empty(),
            !p@.transaction,
    {
        let p = Pipeline { commands: Vec::new(), transaction_mode: false };
        assert(p@.commands =~= Seq::<CmdModel>::empty());
        p
    }

    /// Adds `cmd` at the end of the batch.
    pub fn add_command(&mut self, cmd: Cmd) -> (r: &mut Pipeline)
        ensures
            r@.commands == old(self)@.commands.push(cmd@),
            r@.transaction == old(self)@.transaction,
            *final(self) == *final(r),
    {
        self.commands.push(cmd);
        assert(self@.commands =~= old(self)@.commands.push(cmd@));
        self
    }

    /// Turns transaction mode on or off.
    pub fn set_transaction(&mut self, transaction: bool) -> (r: &mut Pipeline)
        ensures
            r@.commands == old(self)@.commands,
            r@.transaction == transaction,
            *final(self) == *final(r),
    {
        self.transaction_mode = transaction;
        self
    }

    /// Whether the batch is a transaction.
    pub fn is_transaction(&self) -> (r: bool)
        ensures
            r == self@.transaction,
    {
        self.transaction_mode
    }

    /// The wire form of the batch.
    pub fn get_packed_pipeline(&self) -> (r: Vec<u8>)
        requires
            packed_pipeline(self@.commands, self@.transaction).len() <= usize::MAX,
        ensures
            r@ == packed_pipeline(self@.commands, self@.transaction),
    {
        let ghost cmds = self@.commands;
        let mut out: Vec<u8> = Vec::new();
        if self.transaction_mode {
            push_plain_command(&mut out, vec![77u8, 85u8, 76u8, 84u8, 73u8]);
        }
        let ghost head = out@;
        proof {
            assert(head.len() + packed_commands(cmds).len() <= usize::MAX);
        }
        let mut i: usize = 0;
        while i < self.commands.len()
            invariant
                cmds == self@.commands,
                i <= cmds.len(),
                head.len() + packed_commands(cmds).len() <= usize::MAX,
                out@ == head + packed_commands(cmds.subrange(0, i as int)),
            decreases cmds.len() - i,
        {
            proof {
                lemma_packed_commands_prefix(cmds, i + 1);
                assert(cmds.subrange(0, i + 1).drop_last() =~= cmds.subrange(0, i as int));
                assert(cmds[i as int] == self.commands@[i as int]@);
            }
            let mut b = self.commands[i].get_packed_command();
            out.append(&mut b);
            i = i + 1;
            assert(out@ =~= head + packed_commands(cmds.subrange(0, i as int)));
        }
        proof {
            assert(cmds.subrange(0, i as int) =~= cmds);
        }
        if self.transaction_mode {
            push_plain_command(&mut out, vec![69u8, 88u8, 69u8, 67u8]);
        }
        proof {
            assert(out@ =~= packed_pipeline(cmds, self@.transaction));
        }
        out
    }
}

} // verus!
