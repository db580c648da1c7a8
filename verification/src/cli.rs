use vstd::prelude::*;
use vstd::string::*;
use vstd::utf8::*;

use crate::text::{bytes_equal_text, copy_bytes, decode_utf8_string, lossy_string, lossy_utf8};

verus! {

/// Command-line arguments of the client. Arguments are kept as the raw
/// bytes of the operating system's strings.
#[derive(Debug, Clone, PartialEq, Eq)]
pub struct ClientArgs {
    pub action: ClientAction,
    pub session: Option<String>,
    pub ssh_args: Vec<Vec<u8>>,
    pub destination: Vec<u8>,
}

#[derive(Debug, Clone, Copy, PartialEq, Eq, Structural)]
pub enum ClientAction {
    Attach,
    New,
    List,
    Detach,
}

#[derive(Debug, Clone, PartialEq, Eq)]
pub enum CliError {
    MissingDestination,
    MissingOptionValue(&'static str),
    NonUtf8OptionValue(&'static str),
    UnsupportedOption(String),
    ConflictingActions,
    DetachRequiresSession,
    RemoteCommandNotSupported,
}

/// The content of a `CliError`.
pub enum CliErrorView {
    MissingDestination,
    MissingOptionValue(Seq<char>),
    NonUtf8OptionValue(Seq<char>),
    UnsupportedOption(Seq<char>),
    ConflictingActions,
    DetachRequiresSession,
    RemoteCommandNotSupported,
}

impl View for CliError {
    type V = CliErrorView;

    open spec fn view(&self) -> CliErrorView {
        match self {
            CliError::MissingDestination => CliErrorView::MissingDestination,
            CliError::MissingOptionValue(o) => CliErrorView::MissingOptionValue(o@),
            CliError::NonUtf8OptionValue(o) => CliErrorView::NonUtf8OptionValue(o@),
            CliError::UnsupportedOption(o) => CliErrorView::UnsupportedOption(o@),
            CliError::ConflictingActions => CliErrorView::ConflictingActions,
            CliError::DetachRequiresSession => CliErrorView::DetachRequiresSession,
            CliError::RemoteCommandNotSupported => CliErrorView::RemoteCommandNotSupported,
        }
    }
}

/// The byte strings held by a list of arguments.
pub open spec fn arg_seqs(v: Seq<Vec<u8>>) -> Seq<Seq<u8>> {
    Seq::new(v.len(), |i: int| v[i]@)
}

pub open spec fn opt_text_view(o: Option<String>) -> Option<Seq<char>> {
    match o {
        Some(s) => Some(s@),
        None => None,
    }
}

pub open spec fn opt_bytes_view(o: Option<Vec<u8>>) -> Option<Seq<u8>> {
    match o {
        Some(d) => Some(d@),
        None => None,
    }
}

/// The content of `ClientArgs`; also the state of the parser.
pub struct ClientArgsView {
    pub action: ClientAction,
    pub session: Option<Seq<char>>,
    pub ssh_args: Seq<Seq<u8>>,
    pub destination: Option<Seq<u8>>,
}

impl View for ClientArgs {
    type V = ClientArgsView;

    open spec fn view(&self) -> ClientArgsView {
        ClientArgsView {
            action: self.action,
            session: opt_text_view(self.session),
            ssh_args: arg_seqs(self.ssh_args@),
            destination: Some(self.destination@),
        }
    }
}

/// Whether `arg` is one of the ssh options that take no value, or `-v`
/// repeated.
pub open spec fn is_standalone_ssh_flag_spec(arg: Seq<u8>) -> bool {
    ||| arg == "-4".spec_bytes()
    ||| arg == "-6".spec_bytes()
    ||| arg == "-A".spec_bytes()
    ||| arg == "-a".spec_bytes()
    ||| arg == "-C".spec_bytes()
    ||| arg == "-f".spec_bytes()
    ||| arg == "-G".spec_bytes()
    ||| arg == "-g".spec_bytes()
    ||| arg == "-K".spec_bytes()
    ||| arg == "-k".spec_bytes()
    ||| arg == "-N".spec_bytes()
    ||| arg == "-n".spec_bytes()
    ||| arg == "-q".spec_bytes()
    ||| arg == "-T".spec_bytes()
    ||| arg == "-t".spec_bytes()
    ||| arg == "-V".spec_bytes()
    ||| arg == "-X".spec_bytes()
    ||| arg == "-x".spec_bytes()
    ||| arg == "-Y".spec_bytes()
    ||| arg == "-y".spec_bytes()
    ||| (arg.len() > 1 && forall|i: int| 1 <= i < arg.len() ==> #[trigger] arg[i] == 118)
}

/// The ssh option that `arg` names when it is one that takes a value in the
/// next argument.
pub open spec fn ssh_option_needing_value_spec(arg: Seq<u8>) -> Option<Seq<char>> {
    if arg == "-B".spec_bytes() {
        Some("-B"@)
    } else if arg == "-b".spec_bytes() {
        Some("-b"@)
    } else if arg == "-c".spec_bytes() {
        Some("-c"@)
    } else if arg == "-D".spec_bytes() {
        Some("-D"@)
    } else if arg == "-E".spec_bytes() {
        Some("-E"@)
    } else if arg == "-e".spec_bytes() {
        Some("-e"@)
    } else if arg == "-F".spec_bytes() {
        Some("-F"@)
    } else if arg == "-I".spec_bytes() {
        Some("-I"@)
    } else if arg == "-i".spec_bytes() {
        Some("-i"@)
    } else if arg == "-J".spec_bytes() {
        Some("-J"@)
    } else if arg == "-L".spec_bytes() {
        Some("-L"@)
    } else if arg == "-l".spec_bytes() {
        Some("-l"@)
    } else if arg == "-m".spec_bytes() {
        Some("-m"@)
    } else if arg == "-O".spec_bytes() {
        Some("-O"@)
    } else if arg == "-o".spec_bytes() {
        Some("-o"@)
    } else if arg == "-p".spec_bytes() {
        Some("-p"@)
    } else if arg == "-Q".spec_bytes() {
        Some("-Q"@)
    } else if arg == "-R".spec_bytes() {
        Some("-R"@)
    } else if arg == "-S".spec_bytes() {
        Some("-S"@)
    } else if arg == "-W".spec_bytes() {
        Some("-W"@)
    } else if arg == "-w".spec_bytes() {
        Some("-w"@)
    } else {
        None
    }
}

/// Letters of the ssh options that take a value.
pub open spec fn is_value_option_letter(b: u8) -> bool {
    b == 66 || b == 98 || b == 99 || b == 68 || b == 69 || b == 101 || b == 70 || b == 73 || b
        == 105 || b == 74 || b == 76 || b == 108 || b == 109 || b == 79 || b == 111 || b == 112
        || b == 81 || b == 82 || b == 83 || b == 87 || b == 119
}

/// Whether `arg` is a valued ssh option with its value joined to it, as in `-Jjump`.
pub open spec fn is_joined_ssh_option_spec(arg: Seq<u8>) -> bool {
    &&& arg.len() >= 2
    &&& arg[0] == 45
    &&& is_value_option_letter(arg[1])
    &&& valid_utf8(arg)
}

pub open spec fn starts_with_dash_spec(arg: Seq<u8>) -> bool {
    arg.len() > 0 && arg[0] == 45
}

/// The parser state before the first argument.
pub open spec fn initial_parse_state() -> ClientArgsView {
    ClientArgsView {
        action: ClientAction::Attach,
        session: None,
        ssh_args: Seq::empty(),
        destination: None,
    }
}

/// Reads `args` from position `i` on, starting in state `st`: the state when
/// the arguments run out, or the error that stops the reading.
pub open spec fn parse_from(args: Seq<Seq<u8>>, i: int, st: ClientArgsView) -> Result<
    ClientArgsView,
    CliErrorView,
>
    decreases args.len() - i,
{
    if i >= args.len() || i < 0 {
        Ok(st)
    } else if st.destination is Some {
        Err(CliErrorView::RemoteCommandNotSupported)
    } else {
        let arg = args[i];
        if arg == "--".spec_bytes() {
            if i + 1 >= args.len() {
                Err(CliErrorView::MissingDestination)
            } else if i + 2 < args.len() {
                Err(CliErrorView::RemoteCommandNotSupported)
            } else {
                Ok(ClientArgsView { destination: Some(args[i + 1]), ..st })
            }
        } else if arg == "--new".spec_bytes() || arg == "--list".spec_bytes() || arg
            == "--detach".spec_bytes() {
            if st.action != ClientAction::Attach {
                Err(CliErrorView::ConflictingActions)
            } else {
                let next = if arg == "--new".spec_bytes() {
                    ClientAction::New
                } else if arg == "--list".spec_bytes() {
                    ClientAction::List
                } else {
                    ClientAction::Detach
                };
                parse_from(args, i + 1, ClientArgsView { action: next, ..st })
            }
        } else if arg == "--session".spec_bytes() {
            if i + 1 >= args.len() {
                Err(CliErrorView::MissingOptionValue("--session"@))
            } else if !valid_utf8(args[i + 1]) {
                Err(CliErrorView::NonUtf8OptionValue("--session"@))
            } else {
                parse_from(
                    args,
                    i + 2,
                    ClientArgsView { session: Some(decode_utf8(args[i + 1])), ..st },
                )
            }
        } else if starts_with_dash_spec(arg) {
            if is_standalone_ssh_flag_spec(arg) {
                parse_from(args, i + 1, ClientArgsView { ssh_args: st.ssh_args.push(arg), ..st })
            } else if ssh_option_needing_value_spec(arg) is Some {
                if i + 1 >= args.len() {
                    Err(CliErrorView::MissingOptionValue(ssh_option_needing_value_spec(arg)->0))
                } else {
                    parse_from(
                        args,
                        i + 2,
                        ClientArgsView { ssh_args: st.ssh_args.push(arg).push(args[i + 1]), ..st },
                    )
                }
            } else if is_joined_ssh_option_spec(arg) {
                parse_from(args, i + 1, ClientArgsView { ssh_args: st.ssh_args.push(arg), ..st })
            } else {
                Err(CliErrorView::UnsupportedOption(lossy_utf8(arg)))
            }
        } else {
            parse_from(args, i + 1, ClientArgsView { destination: Some(arg), ..st })
        }
    }
}

/// The result of parsing the client's arguments.
pub open spec fn parse_client_args_spec(args: Seq<Seq<u8>>) -> Result<ClientArgsView, CliErrorView> {
    match parse_from(args, 0, initial_parse_state()) {
        Err(e) => Err(e),
        Ok(st) => if st.destination is None {
            Err(CliErrorView::MissingDestination)
        } else if st.action == ClientAction::Detach && st.session is None {
            Err(CliErrorView::DetachRequiresSession)
        } else {
            Ok(st)
        },
    }
}

/// Records the action chosen by `--new`, `--list` or `--detach`; only one may be given.
fn set_action(action: &mut ClientAction, next: ClientAction) -> (r: Result<(), CliError>)
    ensures
        *old(action) != ClientAction::Attach ==> (r matches Err(CliError::ConflictingActions))
            && *final(action) == *old(action),
        *old(action) == ClientAction::Attach ==> r is Ok && *final(action) == next,
{
    if *action != ClientAction::Attach {
        return Err(CliError::ConflictingActions);
    }
    *action = next;
    Ok(())
}

fn starts_with_dash(arg: &[u8]) -> (r: bool)
    ensures
        r == starts_with_dash_spec(arg@),
{
    arg.len() > 0 && arg[0] == 45
}

fn is_standalone_ssh_flag(arg: &[u8]) -> (r: bool)
    ensures
        r == is_standalone_ssh_flag_spec(arg@),
{
    if bytes_equal_text(arg, "-4") || bytes_equal_text(arg, "-6") || bytes_equal_text(arg, "-A")
        || bytes_equal_text(arg, "-a") || bytes_equal_text(arg, "-C") || bytes_equal_text(
        arg,
        "-f",
    ) || bytes_equal_text(arg, "-G") || bytes_equal_text(arg, "-g") || bytes_equal_text(arg, "-K")
        || bytes_equal_text(arg, "-k") || bytes_equal_text(arg, "-N") || bytes_equal_text(
        arg,
        "-n",
    ) || bytes_equal_text(arg, "-q") || bytes_equal_text(arg, "-T") || bytes_equal_text(arg, "-t")
        || bytes_equal_text(arg, "-V") || bytes_equal_text(arg, "-X") || bytes_equal_text(
        arg,
        "-x",
    ) || bytes_equal_text(arg, "-Y") || bytes_equal_text(arg, "-y") {
        return true;
    }
    let n = arg.len();
    if n <= 1 {
        return false;
    }
    let mut i: usize = 1;
    while i < n
        invariant
            1 <= i <= n,
            n == arg@.len(),
            forall|j: int| 1 <= j < i ==> arg@[j] == 118,
            !(arg@ == "-4".spec_bytes() || arg@ == "-6".spec_bytes() || arg@ == "-A".spec_bytes()
                || arg@ == "-a".spec_bytes() || arg@ == "-C".spec_bytes() || arg@
                == "-f".spec_bytes() || arg@ == "-G".spec_bytes() || arg@ == "-g".spec_bytes()
                || arg@ == "-K".spec_bytes() || arg@ == "-k".spec_bytes() || arg@
                == "-N".spec_bytes() || arg@ == "-n".spec_bytes() || arg@ == "-q".spec_bytes()
                || arg@ == "-T".spec_bytes() || arg@ == "-t".spec_bytes() || arg@
                == "-V".spec_bytes() || arg@ == "-X".spec_bytes() || arg@ == "-x".spec_bytes()
                || arg@ == "-Y".spec_bytes() || arg@ == "-y".spec_bytes()),
        decreases n - i,
    {
        if arg[i] != 118 {
            proof {
                assert(arg@[i as int] != 118);
            }
            return false;
        }
        i = i + 1;
    }
    true
}

fn ssh_option_needing_value(arg: &[u8]) -> (r: Option<&'static str>)
    ensures
        r is Some <==> ssh_option_needing_value_spec(arg@) is Some,
        r matches Some(o) ==> o@ == ssh_option_needing_value_spec(arg@)->0,
{
    if bytes_equal_text(arg, "-B") {
        Some("-B")
    } else if bytes_equal_text(arg, "-b") {
        Some("-b")
    } else if bytes_equal_text(arg, "-c") {
        Some("-c")
    } else if bytes_equal_text(arg, "-D") {
        Some("-D")
    } else if bytes_equal_text(arg, "-E") {
        Some("-E")
    } else if bytes_equal_text(arg, "-e") {
        Some("-e")
    } else if bytes_equal_text(arg, "-F") {
        Some("-F")
    } else if bytes_equal_text(arg, "-I") {
        Some("-I")
    } else if bytes_equal_text(arg, "-i") {
        Some("-i")
    } else if bytes_equal_text(arg, "-J") {
        Some("-J")
    } else if bytes_equal_text(arg, "-L") {
        Some("-L")
    } else if bytes_equal_text(arg, "-l") {
        Some("-l")
    } else if bytes_equal_text(arg, "-m") {
        Some("-m")
    } else if bytes_equal_text(arg, "-O") {
        Some("-O")
    } else if bytes_equal_text(arg, "-o") {
        Some("-o")
    } else if bytes_equal_text(arg, "-p") {
        Some("-p")
    } else if bytes_equal_text(arg, "-Q") {
        Some("-Q")
    } else if bytes_equal_text(arg, "-R") {
        Some("-R")
    } else if bytes_equal_text(arg, "-S") {
        Some("-S")
    } else if bytes_equal_text(arg, "-W") {
        Some("-W")
    } else if bytes_equal_text(arg, "-w") {
        Some("-w")
    } else {
        None
    }
}

fn is_joined_ssh_option(arg: &[u8]) -> (r: bool)
    ensures
        r == is_joined_ssh_option_spec(arg@),
{
    if arg.len() < 2 || arg[0] != 45 {
        return false;
    }
    let b = arg[1];
    let letter = b == 66 || b == 98 || b == 99 || b == 68 || b == 69 || b == 101 || b == 70 || b
        == 73 || b == 105 || b == 74 || b == 76 || b == 108 || b == 109 || b == 79 || b == 111
        || b == 112 || b == 81 || b == 82 || b == 83 || b == 87 || b == 119;
    if !letter {
        return false;
    }
    decode_utf8_string(arg).is_some()
}

proof fn lemma_arg_seqs_push(v: Seq<Vec<u8>>, x: Vec<u8>)
    ensures
        arg_seqs(v.push(x)) == arg_seqs(v).push(x@),
{
    assert(arg_seqs(v.push(x)) =~= arg_seqs(v).push(x@));
}

proof fn lemma_destination_then_more(p: Seq<Seq<u8>>, q: Seq<Seq<u8>>, i: int, st: ClientArgsView)
    requires
        0 <= i <= p.len(),
        q.len() > 0,
        parse_from(p, i, st) matches Ok(fin) && fin.destination is Some,
    ensures
        parse_from(p + q, i, st) == Err::<ClientArgsView, CliErrorView>(
            CliErrorView::RemoteCommandNotSupported,
        ),
    decreases p.len() - i,
{
    let pq = p + q;
    if i < p.len() {
        assert(pq[i] == p[i]);
        if i + 1 < p.len() {
            assert(pq[i + 1] == p[i + 1]);
        }
        let arg = p[i];
        if st.destination is None && arg != "--".spec_bytes() {
            if arg == "--new".spec_bytes() || arg == "--list".spec_bytes() || arg
                == "--detach".spec_bytes() {
                let next = if arg == "--new".spec_bytes() {
                    ClientAction::New
                } else if arg == "--list".spec_bytes() {
                    ClientAction::List
                } else {
                    ClientAction::Detach
                };
                if st.action == ClientAction::Attach {
                    lemma_destination_then_more(p, q, i + 1, ClientArgsView { action: next, ..st });
                }
            } else if arg == "--session".spec_bytes() {
                if i + 1 < p.len() && valid_utf8(p[i + 1]) {
                    lemma_destination_then_more(
                        p,
                        q,
                        i + 2,
                        ClientArgsView { session: Some(decode_utf8(p[i + 1])), ..st },
                    );
                }
            } else if starts_with_dash_spec(arg) {
                if is_standalone_ssh_flag_spec(arg) {
                    lemma_destination_then_more(
                        p,
                        q,
                        i + 1,
                        ClientArgsView { ssh_args: st.ssh_args.push(arg), ..st },
                    );
                } else if ssh_option_needing_value_spec(arg) is Some {
                    if i + 1 < p.len() {
                        lemma_destination_then_more(
                            p,
                            q,
                            i + 2,
                            ClientArgsView { ssh_args: st.ssh_args.push(arg).push(p[i + 1]), ..st },
                        );
                    }
                } else if is_joined_ssh_option_spec(arg) {
                    lemma_destination_then_more(
                        p,
                        q,
                        i + 1,
                        ClientArgsView { ssh_args: st.ssh_args.push(arg), ..st },
                    );
                }
            } else {
                lemma_destination_then_more(
                    p,
                    q,
                    i + 1,
                    ClientArgsView { destination: Some(arg), ..st },
                );
            }
        }
    }
}

/// Remote commands are refused: once the arguments read so far name a
/// destination, any argument after them makes the whole command line fail
/// with `RemoteCommandNotSupported`.
pub proof fn lemma_arguments_after_destination_refused(p: Seq<Seq<u8>>, q: Seq<Seq<u8>>)
    requires
        parse_from(p, 0, initial_parse_state()) matches Ok(st) && st.destination is Some,
        q.len() > 0,
    ensures
        parse_client_args_spec(p + q) == Err::<ClientArgsView, CliErrorView>(
            CliErrorView::RemoteCommandNotSupported,
        ),
{
    lemma_destination_then_more(p, q, 0, initial_parse_state());
}

/// The bytes of a spelling of two ASCII characters, `-` and `letter`.
pub open spec fn dash_letter(s: Seq<u8>, letter: u8) -> bool {
    s.len() == 2 && s[0] == 45 && s[1] == letter
}

/// The bytes of an ASCII string are its characters, one byte each.
proof fn lemma_ascii_spelling(s: &str)
    requires
        is_ascii(s),
    ensures
        s.spec_bytes().len() == s@.len(),
        forall|i: int| 0 <= i < s@.len() ==> #[trigger] s.spec_bytes()[i] == s@[i] as u8,
{
    broadcast use vstd::string::group_string_axioms;
}

/// The bytes of the ssh flags that take no value.
proof fn lemma_flag_spellings()
    ensures
        dash_letter("-4".spec_bytes(), 52u8),
        dash_letter("-6".spec_bytes(), 54u8),
        dash_letter("-A".spec_bytes(), 65u8),
        dash_letter("-a".spec_bytes(), 97u8),
        dash_letter("-C".spec_bytes(), 67u8),
        dash_letter("-f".spec_bytes(), 102u8),
        dash_letter("-G".spec_bytes(), 71u8),
        dash_letter("-g".spec_bytes(), 103u8),
        dash_letter("-K".spec_bytes(), 75u8),
        dash_letter("-k".spec_bytes(), 107u8),
        dash_letter("-N".spec_bytes(), 78u8),
        dash_letter("-n".spec_bytes(), 110u8),
        dash_letter("-q".spec_bytes(), 113u8),
        dash_letter("-T".spec_bytes(), 84u8),
        dash_letter("-t".spec_bytes(), 116u8),
        dash_letter("-V".spec_bytes(), 86u8),
        dash_letter("-X".spec_bytes(), 88u8),
        dash_letter("-x".spec_bytes(), 120u8),
        dash_letter("-Y".spec_bytes(), 89u8),
        dash_letter("-y".spec_bytes(), 121u8),
{
    reveal_strlit("-4");
    lemma_ascii_spelling("-4");
    reveal_strlit("-6");
    lemma_ascii_spelling("-6");
    reveal_strlit("-A");
    lemma_ascii_spelling("-A");
    reveal_strlit("-a");
    lemma_ascii_spelling("-a");
    reveal_strlit("-C");
    lemma_ascii_spelling("-C");
    reveal_strlit("-f");
    lemma_ascii_spelling("-f");
    reveal_strlit("-G");
    lemma_ascii_spelling("-G");
    reveal_strlit("-g");
    lemma_ascii_spelling("-g");
    reveal_strlit("-K");
    lemma_ascii_spelling("-K");
    reveal_strlit("-k");
    lemma_ascii_spelling("-k");
    reveal_strlit("-N");
    lemma_ascii_spelling("-N");
    reveal_strlit("-n");
    lemma_ascii_spelling("-n");
    reveal_strlit("-q");
    lemma_ascii_spelling("-q");
    reveal_strlit("-T");
    lemma_ascii_spelling("-T");
    reveal_strlit("-t");
    lemma_ascii_spelling("-t");
    reveal_strlit("-V");
    lemma_ascii_spelling("-V");
    reveal_strlit("-X");
    lemma_ascii_spelling("-X");
    reveal_strlit("-x");
    lemma_ascii_spelling("-x");
    reveal_strlit("-Y");
    lemma_ascii_spelling("-Y");
    reveal_strlit("-y");
    lemma_ascii_spelling("-y");
}

/// The bytes of the ssh options that take a value.
proof fn lemma_valued_option_spellings()
    ensures
        dash_letter("-B".spec_bytes(), 66u8),
        dash_letter("-b".spec_bytes(), 98u8),
        dash_letter("-c".spec_bytes(), 99u8),
        dash_letter("-D".spec_bytes(), 68u8),
        dash_letter("-E".spec_bytes(), 69u8),
        dash_letter("-e".spec_bytes(), 101u8),
        dash_letter("-F".spec_bytes(), 70u8),
        dash_letter("-I".spec_bytes(), 73u8),
        dash_letter("-i".spec_bytes(), 105u8),
        dash_letter("-J".spec_bytes(), 74u8),
        dash_letter("-L".spec_bytes(), 76u8),
        dash_letter("-l".spec_bytes(), 108u8),
        dash_letter("-m".spec_bytes(), 109u8),
        dash_letter("-O".spec_bytes(), 79u8),
        dash_letter("-o".spec_bytes(), 111u8),
        dash_letter("-p".spec_bytes(), 112u8),
        dash_letter("-Q".spec_bytes(), 81u8),
        dash_letter("-R".spec_bytes(), 82u8),
        dash_letter("-S".spec_bytes(), 83u8),
        dash_letter("-W".spec_bytes(), 87u8),
        dash_letter("-w".spec_bytes(), 119u8),
{
    reveal_strlit("-B");
    lemma_ascii_spelling("-B");
    reveal_strlit("-b");
    lemma_ascii_spelling("-b");
    reveal_strlit("-c");
    lemma_ascii_spelling("-c");
    reveal_strlit("-D");
    lemma_ascii_spelling("-D");
    reveal_strlit("-E");
    lemma_ascii_spelling("-E");
    reveal_strlit("-e");
    lemma_ascii_spelling("-e");
    reveal_strlit("-F");
    lemma_ascii_spelling("-F");
    reveal_strlit("-I");
    lemma_ascii_spelling("-I");
    reveal_strlit("-i");
    lemma_ascii_spelling("-i");
    reveal_strlit("-J");
    lemma_ascii_spelling("-J");
    reveal_strlit("-L");
    lemma_ascii_spelling("-L");
    reveal_strlit("-l");
    lemma_ascii_spelling("-l");
    reveal_strlit("-m");
    lemma_ascii_spelling("-m");
    reveal_strlit("-O");
    lemma_ascii_spelling("-O");
    reveal_strlit("-o");
    lemma_ascii_spelling("-o");
    reveal_strlit("-p");
    lemma_ascii_spelling("-p");
    reveal_strlit("-Q");
    lemma_ascii_spelling("-Q");
    reveal_strlit("-R");
    lemma_ascii_spelling("-R");
    reveal_strlit("-S");
    lemma_ascii_spelling("-S");
    reveal_strlit("-W");
    lemma_ascii_spelling("-W");
    reveal_strlit("-w");
    lemma_ascii_spelling("-w");
}

/// The bytes of `--` and of the client's own long options.
proof fn lemma_marker_spellings()
    ensures
        "--".spec_bytes().len() == 2 && "--".spec_bytes()[0] == 45
            && "--".spec_bytes()[1] == 45,
        "--new".spec_bytes().len() == 5 && "--new".spec_bytes()[0] == 45
            && "--new".spec_bytes()[1] == 45,
        "--list".spec_bytes().len() == 6 && "--list".spec_bytes()[0] == 45
            && "--list".spec_bytes()[1] == 45,
        "--detach".spec_bytes().len() == 8 && "--detach".spec_bytes()[0] == 45
            && "--detach".spec_bytes()[1] == 45,
        "--session".spec_bytes().len() == 9 && "--session".spec_bytes()[0] == 45
            && "--session".spec_bytes()[1] == 45,
{
    reveal_strlit("--");
    lemma_ascii_spelling("--");
    reveal_strlit("--new");
    lemma_ascii_spelling("--new");
    reveal_strlit("--list");
    lemma_ascii_spelling("--list");
    reveal_strlit("--detach");
    lemma_ascii_spelling("--detach");
    reveal_strlit("--session");
    lemma_ascii_spelling("--session");
}

/// Each spelling of an option that takes a value is recognised as that
/// option, and not as a flag that stands alone.
proof fn lemma_valued_spellings_recognised()
    ensures
        ssh_option_needing_value_spec("-B".spec_bytes()) == Some("-B"@)
            && !is_standalone_ssh_flag_spec("-B".spec_bytes()),
        ssh_option_needing_value_spec("-b".spec_bytes()) == Some("-b"@)
            && !is_standalone_ssh_flag_spec("-b".spec_bytes()),
        ssh_option_needing_value_spec("-c".spec_bytes()) == Some("-c"@)
            && !is_standalone_ssh_flag_spec("-c".spec_bytes()),
        ssh_option_needing_value_spec("-D".spec_bytes()) == Some("-D"@)
            && !is_standalone_ssh_flag_spec("-D".spec_bytes()),
        ssh_option_needing_value_spec("-E".spec_bytes()) == Some("-E"@)
            && !is_standalone_ssh_flag_spec("-E".spec_bytes()),
        ssh_option_needing_value_spec("-e".spec_bytes()) == Some("-e"@)
            && !is_standalone_ssh_flag_spec("-e".spec_bytes()),
        ssh_option_needing_value_spec("-F".spec_bytes()) == Some("-F"@)
            && !is_standalone_ssh_flag_spec("-F".spec_bytes()),
        ssh_option_needing_value_spec("-I".spec_bytes()) == Some("-I"@)
            && !is_standalone_ssh_flag_spec("-I".spec_bytes()),
        ssh_option_needing_value_spec("-i".spec_bytes()) == Some("-i"@)
            && !is_standalone_ssh_flag_spec("-i".spec_bytes()),
        ssh_option_needing_value_spec("-J".spec_bytes()) == Some("-J"@)
            && !is_standalone_ssh_flag_spec("-J".spec_bytes()),
        ssh_option_needing_value_spec("-L".spec_bytes()) == Some("-L"@)
            && !is_standalone_ssh_flag_spec("-L".spec_bytes()),
        ssh_option_needing_value_spec("-l".spec_bytes()) == Some("-l"@)
            && !is_standalone_ssh_flag_spec("-l".spec_bytes()),
        ssh_option_needing_value_spec("-m".spec_bytes()) == Some("-m"@)
            && !is_standalone_ssh_flag_spec("-m".spec_bytes()),
        ssh_option_needing_value_spec("-O".spec_bytes()) == Some("-O"@)
            && !is_standalone_ssh_flag_spec("-O".spec_bytes()),
        ssh_option_needing_value_spec("-o".spec_bytes()) == Some("-o"@)
            && !is_standalone_ssh_flag_spec("-o".spec_bytes()),
        ssh_option_needing_value_spec("-p".spec_bytes()) == Some("-p"@)
            && !is_standalone_ssh_flag_spec("-p".spec_bytes()),
        ssh_option_needing_value_spec("-Q".spec_bytes()) == Some("-Q"@)
            && !is_standalone_ssh_flag_spec("-Q".spec_bytes()),
        ssh_option_needing_value_spec("-R".spec_bytes()) == Some("-R"@)
            && !is_standalone_ssh_flag_spec("-R".spec_bytes()),
        ssh_option_needing_value_spec("-S".spec_bytes()) == Some("-S"@)
            && !is_standalone_ssh_flag_spec("-S".spec_bytes()),
        ssh_option_needing_value_spec("-W".spec_bytes()) == Some("-W"@)
            && !is_standalone_ssh_flag_spec("-W".spec_bytes()),
        ssh_option_needing_value_spec("-w".spec_bytes()) == Some("-w"@)
            && !is_standalone_ssh_flag_spec("-w".spec_bytes()),
{
    lemma_flag_spellings();
    lemma_valued_option_spellings();
}

/// Every OpenSSH option that takes a value (`-B -b -c -D -E -e -F -I -i -J -L
/// -l -m -O -o -p -Q -R -S -W -w`), given as an argument of its own, takes the
/// next argument with it as its value: both are passed on to ssh, and the
/// argument after them is the destination, never a remote command. Given
/// last, with no value after it, the option is refused by its own name.
pub proof fn lemma_valued_ssh_option_takes_its_value(
    opt: Seq<u8>,
    value: Seq<u8>,
    dest: Seq<u8>,
)
    requires
        opt == "-B".spec_bytes()
            || opt == "-b".spec_bytes()
            || opt == "-c".spec_bytes()
            || opt == "-D".spec_bytes()
            || opt == "-E".spec_bytes()
            || opt == "-e".spec_bytes()
            || opt == "-F".spec_bytes()
            || opt == "-I".spec_bytes()
            || opt == "-i".spec_bytes()
            || opt == "-J".spec_bytes()
            || opt == "-L".spec_bytes()
            || opt == "-l".spec_bytes()
            || opt == "-m".spec_bytes()
            || opt == "-O".spec_bytes()
            || opt == "-o".spec_bytes()
            || opt == "-p".spec_bytes()
            || opt == "-Q".spec_bytes()
            || opt == "-R".spec_bytes()
            || opt == "-S".spec_bytes()
            || opt == "-W".spec_bytes()
            || opt == "-w".spec_bytes(),
        dest.len() == 0 || dest[0] != 45,
    ensures
        parse_client_args_spec(seq![opt, value, dest]) == Ok::<ClientArgsView, CliErrorView>(
            (ClientArgsView {
                action: ClientAction::Attach,
                session: None,
                ssh_args: seq![opt, value],
                destination: Some(dest),
            }),
        ),
        parse_client_args_spec(seq![opt]) matches Err(CliErrorView::MissingOptionValue(name))
            && encode_utf8(name) == opt,
{
    lemma_flag_spellings();
    lemma_valued_option_spellings();
    lemma_marker_spellings();
    lemma_valued_spellings_recognised();
    let args = seq![opt, value, dest];
    assert(args[0] == opt && args[1] == value && args[2] == dest);
    let st0 = initial_parse_state();
    assert(starts_with_dash_spec(opt));
    assert(!is_standalone_ssh_flag_spec(opt));
    assert(ssh_option_needing_value_spec(opt) is Some);
    let st1 = ClientArgsView { ssh_args: st0.ssh_args.push(opt).push(value), ..st0 };
    assert(parse_from(args, 0, st0) == parse_from(args, 2, st1));
    let st2 = ClientArgsView { destination: Some(dest), ..st1 };
    assert(parse_from(args, 2, st1) == parse_from(args, 3, st2));
    assert(parse_from(args, 3, st2) == Ok::<ClientArgsView, CliErrorView>(st2));
    assert(st2.ssh_args =~= seq![opt, value]);
    let alone = seq![opt];
    assert(alone[0] == opt);
    assert(parse_from(alone, 0, st0) == Err::<ClientArgsView, CliErrorView>(
        CliErrorView::MissingOptionValue(ssh_option_needing_value_spec(opt)->0),
    ));
}

/// Every ssh flag that takes no value (`-4 -6 -A -a -C -f -G -g -K -k -N -n
/// -q -T -t -V -X -x -Y -y`, and `-v` repeated any number of times) is passed
/// on to ssh alone, and the argument after it is the destination.
pub proof fn lemma_ssh_flag_passed_on(flag: Seq<u8>, dest: Seq<u8>)
    requires
        flag == "-4".spec_bytes()
            || flag == "-6".spec_bytes()
            || flag == "-A".spec_bytes()
            || flag == "-a".spec_bytes()
            || flag == "-C".spec_bytes()
            || flag == "-f".spec_bytes()
            || flag == "-G".spec_bytes()
            || flag == "-g".spec_bytes()
            || flag == "-K".spec_bytes()
            || flag == "-k".spec_bytes()
            || flag == "-N".spec_bytes()
            || flag == "-n".spec_bytes()
            || flag == "-q".spec_bytes()
            || flag == "-T".spec_bytes()
            || flag == "-t".spec_bytes()
            || flag == "-V".spec_bytes()
            || flag == "-X".spec_bytes()
            || flag == "-x".spec_bytes()
            || flag == "-Y".spec_bytes()
            || flag == "-y".spec_bytes()
            || (flag.len() >= 2 && flag[0] == 45 && forall|i: int|
            1 <= i < flag.len() ==> #[trigger] flag[i] == 118),
        dest.len() == 0 || dest[0] != 45,
    ensures
        parse_client_args_spec(seq![flag, dest]) == Ok::<ClientArgsView, CliErrorView>(
            (ClientArgsView {
                action: ClientAction::Attach,
                session: None,
                ssh_args: seq![flag],
                destination: Some(dest),
            }),
        ),
{
    lemma_flag_spellings();
    lemma_marker_spellings();
    let args = seq![flag, dest];
    assert(args[0] == flag && args[1] == dest);
    assert(flag[0] == 45 && flag[1] != 45);
    assert(is_standalone_ssh_flag_spec(flag));
    let st0 = initial_parse_state();
    let st1 = ClientArgsView { ssh_args: st0.ssh_args.push(flag), ..st0 };
    assert(parse_from(args, 0, st0) == parse_from(args, 1, st1));
    let st2 = ClientArgsView { destination: Some(dest), ..st1 };
    assert(parse_from(args, 1, st1) == parse_from(args, 2, st2));
    assert(parse_from(args, 2, st2) == Ok::<ClientArgsView, CliErrorView>(st2));
    assert(st2.ssh_args =~= seq![flag]);
}

/// An OpenSSH option that takes a value may carry it joined to it, as in
/// `-Jjump` or `-p2222`: such an argument (valid UTF-8) is passed on to ssh
/// whole, and the argument after it is the destination.
pub proof fn lemma_joined_ssh_option_passed_on(arg: Seq<u8>, dest: Seq<u8>)
    requires
        arg.len() > 2,
        arg[0] == '-' as u8,
        arg[1] == 'B' as u8
            || arg[1] == 'b' as u8
            || arg[1] == 'c' as u8
            || arg[1] == 'D' as u8
            || arg[1] == 'E' as u8
            || arg[1] == 'e' as u8
            || arg[1] == 'F' as u8
            || arg[1] == 'I' as u8
            || arg[1] == 'i' as u8
            || arg[1] == 'J' as u8
            || arg[1] == 'L' as u8
            || arg[1] == 'l' as u8
            || arg[1] == 'm' as u8
            || arg[1] == 'O' as u8
            || arg[1] == 'o' as u8
            || arg[1] == 'p' as u8
            || arg[1] == 'Q' as u8
            || arg[1] == 'R' as u8
            || arg[1] == 'S' as u8
            || arg[1] == 'W' as u8
            || arg[1] == 'w' as u8,
        valid_utf8(arg),
        dest.len() == 0 || dest[0] != 45,
    ensures
        parse_client_args_spec(seq![arg, dest]) == Ok::<ClientArgsView, CliErrorView>(
            (ClientArgsView {
                action: ClientAction::Attach,
                session: None,
                ssh_args: seq![arg],
                destination: Some(dest),
            }),
        ),
{
    lemma_flag_spellings();
    lemma_valued_option_spellings();
    lemma_marker_spellings();
    let args = seq![arg, dest];
    assert(args[0] == arg && args[1] == dest);
    assert(arg[1] != 45 && arg[1] != 118);
    assert(!is_standalone_ssh_flag_spec(arg));
    assert(ssh_option_needing_value_spec(arg) is None);
    assert(is_joined_ssh_option_spec(arg));
    let st0 = initial_parse_state();
    let st1 = ClientArgsView { ssh_args: st0.ssh_args.push(arg), ..st0 };
    assert(parse_from(args, 0, st0) == parse_from(args, 1, st1));
    let st2 = ClientArgsView { destination: Some(dest), ..st1 };
    assert(parse_from(args, 1, st1) == parse_from(args, 2, st2));
    assert(parse_from(args, 2, st2) == Ok::<ClientArgsView, CliErrorView>(st2));
    assert(st2.ssh_args =~= seq![arg]);
}

/// How the parser reads `--new`, `--list` and `--detach` before a destination.
proof fn lemma_client_action_steps(dest: Seq<u8>)
    requires
        dest.len() == 0 || dest[0] != 45,
    ensures
        parse_client_args_spec(seq!["--new".spec_bytes(), dest]) == Ok::<
            ClientArgsView,
            CliErrorView,
        >(
            (ClientArgsView {
                action: ClientAction::New,
                destination: Some(dest),
                ..initial_parse_state()
            }),
        ),
        parse_client_args_spec(seq!["--list".spec_bytes(), dest]) == Ok::<
            ClientArgsView,
            CliErrorView,
        >(
            (ClientArgsView {
                action: ClientAction::List,
                destination: Some(dest),
                ..initial_parse_state()
            }),
        ),
        parse_client_args_spec(seq!["--detach".spec_bytes(), dest]) == Err::<
            ClientArgsView,
            CliErrorView,
        >(CliErrorView::DetachRequiresSession),
        parse_client_args_spec(seq!["--new".spec_bytes(), "--list".spec_bytes(), dest]) == Err::<
            ClientArgsView,
            CliErrorView,
        >(CliErrorView::ConflictingActions),
{
    lemma_marker_spellings();
    let st0 = initial_parse_state();
    let new = "--new".spec_bytes();
    let list = "--list".spec_bytes();
    let detach = "--detach".spec_bytes();
    let a = seq![new, dest];
    assert(a[0] == new && a[1] == dest);
    let sa = ClientArgsView { action: ClientAction::New, ..st0 };
    assert(parse_from(a, 0, st0) == parse_from(a, 1, sa));
    assert(parse_from(a, 1, sa) == parse_from(
        a,
        2,
        ClientArgsView { destination: Some(dest), ..sa },
    ));
    let b = seq![list, dest];
    assert(b[0] == list && b[1] == dest);
    let sb = ClientArgsView { action: ClientAction::List, ..st0 };
    assert(parse_from(b, 0, st0) == parse_from(b, 1, sb));
    assert(parse_from(b, 1, sb) == parse_from(
        b,
        2,
        ClientArgsView { destination: Some(dest), ..sb },
    ));
    let c = seq![detach, dest];
    assert(c[0] == detach && c[1] == dest);
    let sc = ClientArgsView { action: ClientAction::Detach, ..st0 };
    assert(parse_from(c, 0, st0) == parse_from(c, 1, sc));
    assert(parse_from(c, 1, sc) == parse_from(
        c,
        2,
        ClientArgsView { destination: Some(dest), ..sc },
    ));
    let d = seq![new, list, dest];
    assert(d[0] == new && d[1] == list);
    assert(parse_from(d, 0, st0) == parse_from(d, 1, sa));
}

/// How the parser reads `--session ID`, alone or after `--detach`.
proof fn lemma_client_session_steps(id: Seq<u8>, dest: Seq<u8>)
    requires
        valid_utf8(id),
        dest.len() == 0 || dest[0] != 45,
    ensures
        parse_client_args_spec(seq!["--session".spec_bytes(), id, dest]) == Ok::<
            ClientArgsView,
            CliErrorView,
        >(
            (ClientArgsView {
                session: Some(decode_utf8(id)),
                destination: Some(dest),
                ..initial_parse_state()
            }),
        ),
        parse_client_args_spec(seq!["--detach".spec_bytes(), "--session".spec_bytes(), id, dest])
            == Ok::<ClientArgsView, CliErrorView>(
            (ClientArgsView {
                action: ClientAction::Detach,
                session: Some(decode_utf8(id)),
                destination: Some(dest),
                ..initial_parse_state()
            }),
        ),
{
    lemma_marker_spellings();
    let st0 = initial_parse_state();
    let session = "--session".spec_bytes();
    let detach = "--detach".spec_bytes();
    let a = seq![session, id, dest];
    assert(a[0] == session && a[1] == id && a[2] == dest);
    let sa = ClientArgsView { session: Some(decode_utf8(id)), ..st0 };
    assert(parse_from(a, 0, st0) == parse_from(a, 2, sa));
    assert(parse_from(a, 2, sa) == parse_from(
        a,
        3,
        ClientArgsView { destination: Some(dest), ..sa },
    ));
    let b = seq![detach, session, id, dest];
    assert(b[0] == detach && b[1] == session && b[2] == id && b[3] == dest);
    let sd = ClientArgsView { action: ClientAction::Detach, ..st0 };
    assert(parse_from(b, 0, st0) == parse_from(b, 1, sd));
    let sb = ClientArgsView { session: Some(decode_utf8(id)), ..sd };
    assert(parse_from(b, 1, sd) == parse_from(b, 3, sb));
    assert(parse_from(b, 3, sb) == parse_from(
        b,
        4,
        ClientArgsView { destination: Some(dest), ..sb },
    ));
}

/// The client's own options: `--new`, `--list` and `--detach` choose the
/// action (only one of them may be given), `--session` takes the argument
/// after it as the session id, `--detach` needs a session, `--` takes the
/// next argument as the destination even when it starts with `-`, and a
/// command line without a destination is refused.
pub proof fn lemma_client_options(id: Seq<u8>, dest: Seq<u8>, any: Seq<u8>)
    requires
        valid_utf8(id),
        dest.len() == 0 || dest[0] != 45,
    ensures
        parse_client_args_spec(seq!["--new".spec_bytes(), dest]) == Ok::<
            ClientArgsView,
            CliErrorView,
        >(
            (ClientArgsView {
                action: ClientAction::New,
                session: None,
                ssh_args: Seq::empty(),
                destination: Some(dest),
            }),
        ),
        parse_client_args_spec(seq!["--list".spec_bytes(), dest]) == Ok::<
            ClientArgsView,
            CliErrorView,
        >(
            (ClientArgsView {
                action: ClientAction::List,
                session: None,
                ssh_args: Seq::empty(),
                destination: Some(dest),
            }),
        ),
        parse_client_args_spec(seq!["--session".spec_bytes(), id, dest]) == Ok::<
            ClientArgsView,
            CliErrorView,
        >(
            (ClientArgsView {
                action: ClientAction::Attach,
                session: Some(decode_utf8(id)),
                ssh_args: Seq::empty(),
                destination: Some(dest),
            }),
        ),
        parse_client_args_spec(seq!["--detach".spec_bytes(), "--session".spec_bytes(), id, dest])
            == Ok::<ClientArgsView, CliErrorView>(
            (ClientArgsView {
                action: ClientAction::Detach,
                session: Some(decode_utf8(id)),
                ssh_args: Seq::empty(),
                destination: Some(dest),
            }),
        ),
        parse_client_args_spec(seq!["--detach".spec_bytes(), dest]) == Err::<
            ClientArgsView,
            CliErrorView,
        >(CliErrorView::DetachRequiresSession),
        parse_client_args_spec(seq!["--new".spec_bytes(), "--list".spec_bytes(), dest]) == Err::<
            ClientArgsView,
            CliErrorView,
        >(CliErrorView::ConflictingActions),
        parse_client_args_spec(seq!["--".spec_bytes(), any]) == Ok::<ClientArgsView, CliErrorView>(
            (ClientArgsView {
                action: ClientAction::Attach,
                session: None,
                ssh_args: Seq::empty(),
                destination: Some(any),
            }),
        ),
        parse_client_args_spec(Seq::empty()) == Err::<ClientArgsView, CliErrorView>(
            CliErrorView::MissingDestination,
        ),
{
    lemma_marker_spellings();
    lemma_client_action_steps(dest);
    lemma_client_session_steps(id, dest);
    let st0 = initial_parse_state();
    let dd = seq!["--".spec_bytes(), any];
    assert(dd[0] == "--".spec_bytes() && dd[1] == any);
    assert(parse_from(dd, 0, st0) == Ok::<ClientArgsView, CliErrorView>(
        ClientArgsView { destination: Some(any), ..st0 },
    ));
    assert(parse_from(Seq::<Seq<u8>>::empty(), 0, st0) == Ok::<ClientArgsView, CliErrorView>(st0));
}

/// A copy of a list of arguments.
pub fn copy_args(v: &Vec<Vec<u8>>) -> (r: Vec<Vec<u8>>)
    ensures
        arg_seqs(r@) == arg_seqs(v@),
{
    let n = v.len();
    let mut out: Vec<Vec<u8>> = Vec::new();
    let mut k: usize = 0;
    while k < n
        invariant
            k <= n,
            n == v@.len(),
            arg_seqs(out@) == arg_seqs(v@).subrange(0, k as int),
        decreases n - k,
    {
        let ghost before = out@;
        let copy = copy_bytes(v[k].as_slice());
        out.push(copy);
        k = k + 1;
        proof {
            lemma_arg_seqs_push(before, copy);
            assert(arg_seqs(out@) =~= arg_seqs(v@).subrange(0, k as int));
        }
    }
    proof {
        assert(arg_seqs(v@).subrange(0, n as int) =~= arg_seqs(v@));
    }
    out
}

impl ClientArgs {
    /// The arguments of a reconnection: the same ssh options and
    /// destination, attaching to `session_id`.
    pub fn for_reconnect(&self, session_id: String) -> (r: ClientArgs)
        ensures
            r@ == (ClientArgsView {
                action: ClientAction::Attach,
                session: Some(session_id@),
                ..self@
            }),
    {
        ClientArgs {
            action: ClientAction::Attach,
            session: Some(session_id),
            ssh_args: copy_args(&self.ssh_args),
            destination: copy_bytes(self.destination.as_slice()),
        }
    }

    /// The arguments that ask the stale client of `session_id` to detach:
    /// the same ssh options and destination, with `--detach`.
    pub fn for_detach(&self, session_id: String) -> (r: ClientArgs)
        ensures
            r@ == (ClientArgsView {
                action: ClientAction::Detach,
                session: Some(session_id@),
                ..self@
            }),
    {
        ClientArgs {
            action: ClientAction::Detach,
            session: Some(session_id),
            ssh_args: copy_args(&self.ssh_args),
            destination: copy_bytes(self.destination.as_slice()),
        }
    }
}

/// The parser state held in the parser's variables.
pub open spec fn parse_state_view(
    action: ClientAction,
    session: Option<String>,
    ssh_args: Seq<Vec<u8>>,
    destination: Option<Vec<u8>>,
) -> ClientArgsView {
    ClientArgsView {
        action,
        session: opt_text_view(session),
        ssh_args: arg_seqs(ssh_args),
        destination: opt_bytes_view(destination),
    }
}

/// Reads the argument at `i` (and its value, when it takes one), updating the
/// parser state; returns where the next argument starts, or the error.
fn parse_step(
    args: &Vec<Vec<u8>>,
    i: usize,
    action: &mut ClientAction,
    session: &mut Option<String>,
    ssh_args: &mut Vec<Vec<u8>>,
    destination: &mut Option<Vec<u8>>,
) -> (r: Result<usize, CliError>)
    requires
        i < args@.len(),
    ensures
        ({
            let a = arg_seqs(args@);
            let st0 = parse_state_view(*old(action), *old(session), old(ssh_args)@, *old(destination));
            let st1 = parse_state_view(*final(action), *final(session), final(ssh_args)@, *final(destination));
            &&& r matches Ok(j) ==> i < j <= args@.len() && parse_from(a, i as int, st0) == parse_from(a, j as int, st1)
            &&& r matches Err(e) ==> parse_from(a, i as int, st0) == Err::<ClientArgsView, CliErrorView>(e@)
        }),
{
    let ghost a = arg_seqs(args@);
    let n = args.len();
    if destination.is_some() {
        return Err(CliError::RemoteCommandNotSupported);
    }
    let arg: &[u8] = args[i].as_slice();
    proof {
        assert(arg@ == a[i as int]);
        if i + 1 < n {
            assert(a[i + 1] == args@[i + 1]@);
        }
    }
    if bytes_equal_text(arg, "--") {
        if i + 1 >= n {
            return Err(CliError::MissingDestination);
        }
        if i + 2 < n {
            return Err(CliError::RemoteCommandNotSupported);
        }
        *destination = Some(copy_bytes(args[i + 1].as_slice()));
        return Ok(i + 2);
    }
    if bytes_equal_text(arg, "--new") {
        set_action(action, ClientAction::New)?;
        return Ok(i + 1);
    }
    if bytes_equal_text(arg, "--list") {
        set_action(action, ClientAction::List)?;
        return Ok(i + 1);
    }
    if bytes_equal_text(arg, "--detach") {
        set_action(action, ClientAction::Detach)?;
        return Ok(i + 1);
    }
    if bytes_equal_text(arg, "--session") {
        if i + 1 >= n {
            return Err(CliError::MissingOptionValue("--session"));
        }
        match decode_utf8_string(args[i + 1].as_slice()) {
            Some(v) => {
                *session = Some(v);
                return Ok(i + 2);
            },
            None => {
                return Err(CliError::NonUtf8OptionValue("--session"));
            },
        }
    }
    if starts_with_dash(arg) {
        if is_standalone_ssh_flag(arg) {
            let ghost before = ssh_args@;
            let copy = copy_bytes(arg);
            ssh_args.push(copy);
            proof {
                lemma_arg_seqs_push(before, copy);
            }
            return Ok(i + 1);
        }
        match ssh_option_needing_value(arg) {
            Some(option) => {
                if i + 1 >= n {
                    return Err(CliError::MissingOptionValue(option));
                }
                let ghost before = ssh_args@;
                let copy = copy_bytes(arg);
                ssh_args.push(copy);
                proof {
                    lemma_arg_seqs_push(before, copy);
                }
                let ghost middle = ssh_args@;
                let value = copy_bytes(args[i + 1].as_slice());
                ssh_args.push(value);
                proof {
                    lemma_arg_seqs_push(middle, value);
                }
                return Ok(i + 2);
            },
            None => {},
        }
        if is_joined_ssh_option(arg) {
            let ghost before = ssh_args@;
            let copy = copy_bytes(arg);
            ssh_args.push(copy);
            proof {
                lemma_arg_seqs_push(before, copy);
            }
            return Ok(i + 1);
        }
        return Err(CliError::UnsupportedOption(lossy_string(arg)));
    }
    *destination = Some(copy_bytes(arg));
    Ok(i + 1)
}

/// Parses the client's arguments: `--new`, `--list`, `--detach` (one of them
/// at most), `--session ID`, the ssh options passed through, and exactly one
/// destination, optionally after `--`. Remote command arguments are refused,
/// and `--detach` needs `--session`.
pub fn parse_client_args(args: Vec<Vec<u8>>) -> (r: Result<ClientArgs, CliError>)
    ensures
        parse_client_args_spec(arg_seqs(args@)) matches Ok(v) ==> {
            &&& r matches Ok(a)
            &&& a@ == v
        },
        parse_client_args_spec(arg_seqs(args@)) matches Err(e) ==> {
            &&& r matches Err(x)
            &&& x@ == e
        },
{
    let ghost a = arg_seqs(args@);
    let n = args.len();
    let mut action = ClientAction::Attach;
    let mut session: Option<String> = None;
    let mut ssh_args: Vec<Vec<u8>> = Vec::new();
    let mut destination: Option<Vec<u8>> = None;
    let mut i: usize = 0;
    proof {
        assert(arg_seqs(ssh_args@) =~= Seq::<Seq<u8>>::empty());
        assert(parse_state_view(action, session, ssh_args@, destination) == initial_parse_state());
    }
    while i < n
        invariant
            i <= n,
            n == args@.len(),
            a == arg_seqs(args@),
            parse_from(a, 0, initial_parse_state()) == parse_from(
                a,
                i as int,
                parse_state_view(action, session, ssh_args@, destination),
            ),
        decreases n - i,
    {
        i = parse_step(&args, i, &mut action, &mut session, &mut ssh_args, &mut destination)?;
    }
    match destination {
        None => Err(CliError::MissingDestination),
        Some(dest) => {
            if action == ClientAction::Detach && session.is_none() {
                return Err(CliError::DetachRequiresSession);
            }
            Ok(ClientArgs { action, session, ssh_args, destination: dest })
        },
    }
}

impl ClientArgs {
    /// The arguments for the system `ssh`: `-T` first unless the user gave
    /// it, then the user's ssh options, the destination and the remote command.
    pub fn ssh_command_args(&self, remote_command: &str) -> (r: Vec<Vec<u8>>)
        ensures
            arg_seqs(r@) == (if arg_seqs(self.ssh_args@).contains("-T".spec_bytes()) {
                Seq::<Seq<u8>>::empty()
            } else {
                seq!["-T".spec_bytes()]
            }) + arg_seqs(self.ssh_args@) + seq![self.destination@, remote_command.spec_bytes()],
    {
        let n = self.ssh_args.len();
        let mut has_t = false;
        let mut i: usize = 0;
        while i < n
            invariant
                i <= n,
                n == self.ssh_args@.len(),
                has_t == exists|j: int| 0 <= j < i && arg_seqs(self.ssh_args@)[j] == "-T".spec_bytes(),
            decreases n - i,
        {
            proof {
                assert(arg_seqs(self.ssh_args@)[i as int] == self.ssh_args@[i as int]@);
            }
            if bytes_equal_text(self.ssh_args[i].as_slice(), "-T") {
                has_t = true;
            }
            i = i + 1;
        }
        let mut out: Vec<Vec<u8>> = Vec::new();
        if !has_t {
            let t = copy_bytes("-T".as_bytes());
            out.push(t);
            proof {
                lemma_arg_seqs_push(Seq::empty(), t);
            }
        }
        let ghost head = arg_seqs(out@);
        let mut k: usize = 0;
        while k < n
            invariant
                k <= n,
                n == self.ssh_args@.len(),
                arg_seqs(out@) == head + arg_seqs(self.ssh_args@).subrange(0, k as int),
            decreases n - k,
        {
            let ghost before = out@;
            let copy = copy_bytes(self.ssh_args[k].as_slice());
            out.push(copy);
            k = k + 1;
            proof {
                lemma_arg_seqs_push(before, copy);
                assert(arg_seqs(out@) =~= head + arg_seqs(self.ssh_args@).subrange(0, k as int));
            }
        }
        let ghost before = out@;
        let d = copy_bytes(self.destination.as_slice());
        out.push(d);
        let ghost middle = out@;
        let c = copy_bytes(remote_command.as_bytes());
        out.push(c);
        proof {
            lemma_arg_seqs_push(before, d);
            lemma_arg_seqs_push(middle, c);
            assert(arg_seqs(self.ssh_args@).subrange(0, n as int) =~= arg_seqs(self.ssh_args@));
            assert(arg_seqs(out@) =~= (if arg_seqs(self.ssh_args@).contains("-T".spec_bytes()) {
                Seq::<Seq<u8>>::empty()
            } else {
                seq!["-T".spec_bytes()]
            }) + arg_seqs(self.ssh_args@) + seq![self.destination@, remote_command.spec_bytes()]);
        }
        out
    }
}

} // verus!
