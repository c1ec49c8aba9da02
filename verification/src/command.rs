//! The commands that are run, as values.

use crate::text::{decimal, decimal_string, lemma_decimal_value};
use vstd::prelude::*;

verus! {

/// An argument: text, or a path, which is raw bytes.
#[derive(Debug)]
pub enum Arg {
    Text(String),
    Path(Vec<u8>),
}

/// An [`Arg`] as a sequence.
pub enum ArgView {
    Text(Seq<char>),
    Path(Seq<u8>),
}

impl View for Arg {
    type V = ArgView;

    open spec fn view(&self) -> ArgView {
        match *self {
            Arg::Text(s) => ArgView::Text(s@),
            Arg::Path(p) => ArgView::Path(p@),
        }
    }
}

/// A program and its arguments.
#[derive(Debug)]
pub struct CommandLine {
    pub program: String,
    pub args: Vec<Arg>,
}

/// A [`CommandLine`] as sequences.
#[verifier::ext_equal]
pub struct CommandLineView {
    pub program: Seq<char>,
    pub args: Seq<ArgView>,
}

impl View for CommandLine {
    type V = CommandLineView;

    open spec fn view(&self) -> CommandLineView {
        CommandLineView { program: self.program@, args: self.args@.map_values(|a: Arg| a@) }
    }
}

/// What a finished command left behind.
#[derive(Debug)]
pub struct CommandOutput {
    pub success: bool,
    pub stdout: Vec<u8>,
    pub stderr: Vec<u8>,
}

/// A [`CommandOutput`] as sequences.
pub struct CommandOutputView {
    pub success: bool,
    pub stdout: Seq<u8>,
    pub stderr: Seq<u8>,
}

impl View for CommandOutput {
    type V = CommandOutputView;

    open spec fn view(&self) -> CommandOutputView {
        CommandOutputView { success: self.success, stdout: self.stdout@, stderr: self.stderr@ }
    }
}

fn text_arg(s: &str) -> (r: Arg)
    ensures
        r@ == ArgView::Text(s@),
{
    Arg::Text(s.to_owned())
}

fn path_arg(path: &[u8]) -> (r: Arg)
    ensures
        r@ == ArgView::Path(path@),
{
    Arg::Path(vstd::slice::slice_to_vec(path))
}

pub open spec fn attach_command_line(file: Seq<u8>, offset: nat) -> CommandLineView {
    CommandLineView {
        program: "losetup"@,
        args: seq![
            ArgView::Text("--find"@),
            ArgView::Text("--show"@),
            ArgView::Text("--offset"@),
            ArgView::Text(decimal(offset)),
            ArgView::Path(file),
        ],
    }
}

pub open spec fn detach_command_line(device: Seq<u8>) -> CommandLineView {
    CommandLineView { program: "losetup"@, args: seq![ArgView::Text("-d"@), ArgView::Path(device)] }
}

pub open spec fn check_command_line(path: Seq<u8>) -> CommandLineView {
    CommandLineView { program: "e2fsck"@, args: seq![ArgView::Text("-nf"@), ArgView::Path(path)] }
}

pub open spec fn resize_command_line(path: Seq<u8>, blocks: nat) -> CommandLineView {
    CommandLineView {
        program: "resize2fs"@,
        args: seq![ArgView::Path(path), ArgView::Text(decimal(blocks))],
    }
}

/// Attaches a free loop device to `file` from byte `offset` on and prints its
/// path.
pub fn attach_command(file: &[u8], offset: u64) -> (r: CommandLine)
    ensures
        r@ == attach_command_line(file@, offset as nat),
{
    let mut args: Vec<Arg> = Vec::new();
    args.push(text_arg("--find"));
    args.push(text_arg("--show"));
    args.push(text_arg("--offset"));
    args.push(Arg::Text(decimal_string(offset)));
    args.push(path_arg(file));
    let r = CommandLine { program: "losetup".to_owned(), args };
    proof {
        assert(r@ =~= attach_command_line(file@, offset as nat));
    }
    r
}

/// Detaches a loop device.
pub fn detach_command(device: &[u8]) -> (r: CommandLine)
    ensures
        r@ == detach_command_line(device@),
{
    let mut args: Vec<Arg> = Vec::new();
    args.push(text_arg("-d"));
    args.push(path_arg(device));
    let r = CommandLine { program: "losetup".to_owned(), args };
    proof {
        assert(r@ =~= detach_command_line(device@));
    }
    r
}

/// Checks the filesystem on `path`, changing nothing.
pub fn check_command(path: &[u8]) -> (r: CommandLine)
    ensures
        r@ == check_command_line(path@),
{
    let mut args: Vec<Arg> = Vec::new();
    args.push(text_arg("-nf"));
    args.push(path_arg(path));
    let r = CommandLine { program: "e2fsck".to_owned(), args };
    proof {
        assert(r@ =~= check_command_line(path@));
    }
    r
}

/// Gives the filesystem on `path` a size of `blocks` blocks.
pub fn resize_command(path: &[u8], blocks: u64) -> (r: CommandLine)
    ensures
        r@ == resize_command_line(path@, blocks as nat),
{
    let mut args: Vec<Arg> = Vec::new();
    args.push(path_arg(path));
    args.push(Arg::Text(decimal_string(blocks)));
    let r = CommandLine { program: "resize2fs".to_owned(), args };
    proof {
        assert(r@ =~= resize_command_line(path@, blocks as nat));
    }
    r
}

/// A loop device is attached to the very file, from the very byte on; the
/// device that is detached, the place that is checked and the place that is
/// resized are the very paths given, and the size is the very number of blocks.
pub proof fn lemma_command_words(path: Seq<u8>, n: nat)
    ensures
        ({
            let attach = attach_command_line(path, n);
            &&& attach.program == "losetup"@
            &&& attach.args == seq![
                ArgView::Text("--find"@),
                ArgView::Text("--show"@),
                ArgView::Text("--offset"@),
            ].push(ArgView::Text(decimal(n))).push(ArgView::Path(path))
        }),
        ({
            let detach = detach_command_line(path);
            detach.program == "losetup"@ && detach.args == seq![ArgView::Text("-d"@)].push(
                ArgView::Path(path),
            )
        }),
        ({
            let check = check_command_line(path);
            check.program == "e2fsck"@ && check.args == seq![ArgView::Text("-nf"@)].push(
                ArgView::Path(path),
            )
        }),
        ({
            let resize = resize_command_line(path, n);
            resize.program == "resize2fs"@ && resize.args == seq![ArgView::Path(path)].push(
                ArgView::Text(decimal(n)),
            )
        }),
{
}

/// Commands for different places or numbers are different commands.
pub proof fn lemma_commands_differ(a: Seq<u8>, m: nat, b: Seq<u8>, n: nat)
    ensures
        attach_command_line(a, m) == attach_command_line(b, n) ==> a == b && m == n,
        resize_command_line(a, m) == resize_command_line(b, n) ==> a == b && m == n,
        detach_command_line(a) == detach_command_line(b) ==> a == b,
        check_command_line(a) == check_command_line(b) ==> a == b,
{
    lemma_decimal_value(m);
    lemma_decimal_value(n);
    if attach_command_line(a, m) == attach_command_line(b, n) {
        let x = attach_command_line(a, m).args;
        let y = attach_command_line(b, n).args;
        assert(x[3] == y[3] && x[4] == y[4]);
        assert(x[3]->Text_0 == decimal(m) && y[3]->Text_0 == decimal(n));
    }
    if resize_command_line(a, m) == resize_command_line(b, n) {
        let x = resize_command_line(a, m).args;
        let y = resize_command_line(b, n).args;
        assert(x[0] == y[0] && x[1] == y[1]);
        assert(x[1]->Text_0 == decimal(m) && y[1]->Text_0 == decimal(n));
    }
    if detach_command_line(a) == detach_command_line(b) {
        assert(detach_command_line(a).args[1] == detach_command_line(b).args[1]);
    }
    if check_command_line(a) == check_command_line(b) {
        assert(check_command_line(a).args[1] == check_command_line(b).args[1]);
    }
}

/// A command line as sequences has its program and its arguments, each of them
/// as it is; so does what a command left behind.
pub proof fn lemma_command_views(line: CommandLine, i: int, output: CommandOutput)
    requires
        0 <= i < line.args@.len(),
    ensures
        line@.program == line.program@,
        line@.args.len() == line.args@.len(),
        match line.args@[i] {
            Arg::Text(t) => line@.args[i] == ArgView::Text(t@),
            Arg::Path(p) => line@.args[i] == ArgView::Path(p@),
        },
        output@.success == output.success,
        output@.stdout == output.stdout@,
        output@.stderr == output.stderr@,
{
}

/// Every command can be made for every path and number, and calls make the
/// command lines stated for them.
pub proof fn lemma_command_calls(path: &[u8], n: u64, r: CommandLine)
    ensures
        call_requires(attach_command, (path, n)),
        call_requires(detach_command, (path,)),
        call_requires(check_command, (path,)),
        call_requires(resize_command, (path, n)),
        call_ensures(attach_command, (path, n), r) ==> r@ == attach_command_line(path@, n as nat),
        call_ensures(detach_command, (path,), r) ==> r@ == detach_command_line(path@),
        call_ensures(check_command, (path,), r) ==> r@ == check_command_line(path@),
        call_ensures(resize_command, (path, n), r) ==> r@ == resize_command_line(path@, n as nat),
{
}

} // verus!
