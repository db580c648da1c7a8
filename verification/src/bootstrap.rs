use vstd::prelude::*;
use vstd::string::*;

use crate::protocol::CURRENT_PROTOCOL_BASELINE;
use crate::text::push_char;
use vstd::seq_lib::lemma_concat_associative;

verus! {

broadcast use vstd::string::group_string_axioms;

/// Line the bootstrap prints once the server is about to take over stdio.
pub const READY_MARKER: &'static str = "OBI-SERVER-READY";

/// Line the bootstrap prints when it needs permission to install the server.
pub const INSTALL_REQUIRED_MARKER: &'static str = "OBI-INSTALL-REQUIRED";

/// Line the client sends to allow the installation.
pub const INSTALL_OK_MARKER: &'static str = "OBI-INSTALL-OK";

/// Terminal type used when the local one is missing or unhelpful.
pub const DEFAULT_TERM: &'static str = "xterm-256color";

/// The bootstrap that the remote shell runs before the server takes over:
/// it finds a server that speaks the protocol baseline (in `~/.ssh-obi/bin`,
/// in `~/.cargo/bin`, then on `PATH`), prints `OBI-SERVER-READY` and execs
/// it; otherwise it prints `OBI-INSTALL-REQUIRED`, installs the release for
/// the host once the client answers `OBI-INSTALL-OK`, and then starts it.
/// Run with `--install`, it only installs or updates.
pub const SCRIPT: &'static str = r#"#!/bin/sh
# ssh-obi remote bootstrap. Run as the remote command of an SSH session:
#   sh -c SCRIPT sh BASELINE --term TERM [SERVER-ARGS...]
# or, to install or update without starting a session:
#   sh -s -- --install
# Before the server takes over, only OBI- marker lines go to standard output.

OBI_BIN="${HOME}/.ssh-obi/bin"
OBI_RELEASES="https://obi.menhera.org"

obi_marker() {
    printf '%s\n' "$1"
}

obi_fail() {
    obi_marker "OBI-ERROR $1"
    exit 1
}

obi_compatible() {
    [ -x "$1" ] && "$1" --protocol-check "$OBI_WANT" >/dev/null 2>&1
}

obi_find_server() {
    for obi_candidate in "${HOME}/.ssh-obi/bin/ssh-obi-server" "${HOME}/.cargo/bin/ssh-obi-server"; do
        if obi_compatible "$obi_candidate"; then
            OBI_SERVER="$obi_candidate"
            return 0
        fi
    done
    obi_candidate=$(command -v ssh-obi-server 2>/dev/null) || return 1
    if obi_compatible "$obi_candidate"; then
        OBI_SERVER="$obi_candidate"
        return 0
    fi
    return 1
}

obi_target() {
    obi_os=$(uname -s 2>/dev/null)
    obi_cpu=$(uname -m 2>/dev/null)
    case "$obi_os:$obi_cpu" in
        Linux:x86_64 | Linux:amd64) OBI_TARGET=x86_64-unknown-linux-musl ;;
        Linux:aarch64 | Linux:arm64) OBI_TARGET=aarch64-unknown-linux-musl ;;
        Linux:riscv64) OBI_TARGET=riscv64gc-unknown-linux-musl ;;
        Linux:ppc64le) OBI_TARGET=powerpc64le-unknown-linux-musl ;;
        Linux:s390x) OBI_TARGET=s390x-unknown-linux-musl ;;
        FreeBSD:amd64 | FreeBSD:x86_64) OBI_TARGET=x86_64-unknown-freebsd ;;
        NetBSD:amd64 | NetBSD:x86_64) OBI_TARGET=x86_64-unknown-netbsd ;;
        SunOS:i86pc | SunOS:x86_64) OBI_TARGET=x86_64-unknown-illumos ;;
        Darwin:x86_64) OBI_TARGET=x86_64-apple-darwin ;;
        Darwin:arm64 | Darwin:aarch64) OBI_TARGET=aarch64-apple-darwin ;;
        OpenBSD:*)
            obi_fail "no prebuilt release for OpenBSD; install a Rust toolchain and run: cargo install --features server-bin ssh-obi"
            ;;
        *) obi_fail "no prebuilt release for $obi_os $obi_cpu" ;;
    esac
}

obi_download() {
    if command -v curl >/dev/null 2>&1; then
        curl -fsSL "$1"
    elif command -v wget >/dev/null 2>&1; then
        wget -qO- "$1"
    elif command -v fetch >/dev/null 2>&1; then
        fetch -qo - "$1"
    elif command -v ftp >/dev/null 2>&1; then
        ftp -o - -M "$1"
    else
        return 1
    fi
}

obi_add_path_line() {
    if [ -f "$1" ] && grep -q 'ssh-obi' "$1" 2>/dev/null; then
        return 0
    fi
    printf '\n# ssh-obi\n%s\n' "$2" >>"$1"
}

obi_install() {
    obi_target
    obi_tmp=$(mktemp -d 2>/dev/null || echo "${TMPDIR:-/tmp}/ssh-obi-install.$$")
    mkdir -p "$obi_tmp" || obi_fail "cannot create $obi_tmp"
    obi_download "$OBI_RELEASES/release-$OBI_TARGET.tar.gz" >"$obi_tmp/release.tar.gz" 2>/dev/null ||
        obi_fail "download of release-$OBI_TARGET.tar.gz failed"
    (cd "$obi_tmp" && gzip -dc release.tar.gz | tar -xf -) >/dev/null 2>&1 ||
        obi_fail "cannot unpack release-$OBI_TARGET.tar.gz"
    [ -f "$obi_tmp/ssh-obi-server" ] || obi_fail "release-$OBI_TARGET.tar.gz holds no server"
    mkdir -p "$OBI_BIN" || obi_fail "cannot create $OBI_BIN"
    for obi_file in ssh-obi-server ssh-obi; do
        if [ -f "$obi_tmp/$obi_file" ]; then
            cp "$obi_tmp/$obi_file" "$OBI_BIN/$obi_file.new" &&
                chmod 755 "$OBI_BIN/$obi_file.new" &&
                mv -f "$OBI_BIN/$obi_file.new" "$OBI_BIN/$obi_file" ||
                obi_fail "cannot install $obi_file"
        fi
    done
    rm -rf "$obi_tmp"
    obi_add_path_line "${HOME}/.bashrc" 'export PATH="$HOME/.ssh-obi/bin:$PATH"'
    obi_add_path_line "${HOME}/.zshenv" 'export PATH="$HOME/.ssh-obi/bin:$PATH"'
    mkdir -p "${HOME}/.config/fish/conf.d" 2>/dev/null &&
        obi_add_path_line "${HOME}/.config/fish/conf.d/ssh-obi.fish" 'set -gx PATH "$HOME/.ssh-obi/bin" $PATH'
}

if [ "${1:-}" = "--install" ]; then
    obi_install
    obi_marker "OBI-INSTALL-COMPLETE"
    exit 0
fi

OBI_WANT="${1:-0.1}"
[ "$#" -gt 0 ] && shift
if [ "${1:-}" = "--term" ]; then
    if [ -n "${2:-}" ]; then
        TERM="$2"
        export TERM
    fi
    shift
    [ "$#" -gt 0 ] && shift
fi

if ! obi_find_server; then
    obi_marker "OBI-INSTALL-REQUIRED"
    IFS= read -r obi_answer || obi_answer=
    case "$obi_answer" in
        OBI-INSTALL-OK*) ;;
        *) obi_fail "install declined" ;;
    esac
    obi_install
    obi_find_server || obi_fail "installed server does not speak protocol $OBI_WANT"
fi

obi_marker "OBI-SERVER-READY"
exec "$OBI_SERVER" "$@"
"#;

/// Characters that a POSIX shell word may hold without quoting.
pub open spec fn is_shell_safe_char(c: char) -> bool {
    ('a' <= c && c <= 'z') || ('A' <= c && c <= 'Z') || ('0' <= c && c <= '9') || c == '.' || c
        == '/' || c == '_' || c == '-'
}

/// `s` with every single quote written as `'\''` (close, escaped quote, reopen).
pub open spec fn escape_single_quotes(s: Seq<char>) -> Seq<char>
    decreases s.len(),
{
    if s.len() == 0 {
        Seq::empty()
    } else {
        escape_single_quotes(s.drop_last()) + if s.last() == '\'' {
            seq!['\'', '\\', '\'', '\'']
        } else {
            seq![s.last()]
        }
    }
}

/// A shell word for `s`: `s` itself when every character is safe, otherwise
/// `s` in single quotes with its single quotes escaped.
pub open spec fn shell_quote_spec(s: Seq<char>) -> Seq<char> {
    if forall|i: int| 0 <= i < s.len() ==> is_shell_safe_char(#[trigger] s[i]) {
        s
    } else {
        seq!['\''] + escape_single_quotes(s) + seq!['\'']
    }
}

fn all_shell_safe(value: &str) -> (r: bool)
    ensures
        r == forall|i: int| 0 <= i < value@.len() ==> is_shell_safe_char(#[trigger] value@[i]),
{
    let mut ok = true;
    for c in it: value.chars()
        invariant
            it.seq() == value@,
            ok == forall|i: int| 0 <= i < it.index() ==> is_shell_safe_char(#[trigger] value@[i]),
    {
        assert(c == value@[it.index() as int]);
        let safe = ('a' <= c && c <= 'z') || ('A' <= c && c <= 'Z') || ('0' <= c && c <= '9') || c
            == '.' || c == '/' || c == '_' || c == '-';
        ok = ok && safe;
    }
    ok
}

/// Quotes `value` as one POSIX shell word.
pub fn shell_quote(value: &str) -> (r: String)
    ensures
        r@ == shell_quote_spec(value@),
{
    if all_shell_safe(value) {
        return value.to_owned();
    }
    let mut out = String::new();
    push_char(&mut out, '\'');
    for c in it: value.chars()
        invariant
            it.seq() == value@,
            out@ == seq!['\''] + escape_single_quotes(value@.subrange(0, it.index() as int)),
    {
        assert(c == value@[it.index() as int]);
        let ghost before = value@.subrange(0, it.index() as int);
        if c == '\'' {
            push_char(&mut out, '\'');
            push_char(&mut out, '\\');
            push_char(&mut out, '\'');
            push_char(&mut out, '\'');
        } else {
            push_char(&mut out, c);
        }
        proof {
            let after = value@.subrange(0, it.index() + 1);
            assert(after.drop_last() =~= before);
            assert(after.last() == c);
            assert(out@ =~= seq!['\''] + escape_single_quotes(after));
        }
    }
    proof {
        assert(value@.subrange(0, value@.len() as int) =~= value@);
    }
    push_char(&mut out, '\'');
    out
}

/// The server arguments, each quoted and preceded by a space.
pub open spec fn quoted_args(args: Seq<&str>) -> Seq<char>
    decreases args.len(),
{
    if args.len() == 0 {
        Seq::empty()
    } else {
        quoted_args(args.drop_last()) + " "@ + shell_quote_spec(args.last()@)
    }
}

/// The remote command that runs the bootstrap `script` with the protocol
/// baseline, the terminal type and the server arguments.
pub open spec fn remote_shell_command_spec(script: Seq<char>, args: Seq<&str>, term: Seq<char>) -> Seq<char> {
    "sh -c "@ + shell_quote_spec(script) + " sh "@ + shell_quote_spec(CURRENT_PROTOCOL_BASELINE@)
        + " --term "@ + shell_quote_spec(term) + quoted_args(args)
}

/// The command given to `ssh` as the remote command: `sh -c SCRIPT sh
/// BASELINE --term TERM ARGS...` with the bootstrap `SCRIPT`, every part
/// quoted as a shell word. The
/// script runs from the command itself, so the SSH stdin stays free for the
/// install confirmation and then the protocol.
pub fn remote_shell_command(server_args: &[&str], term: &str) -> (r: String)
    ensures
        r@ == remote_shell_command_spec(SCRIPT@, server_args@, term@),
{
    let script = SCRIPT;
    let mut command = String::new();
    command.append("sh -c ");
    let q = shell_quote(script);
    command.append(q.as_str());
    command.append(" sh ");
    let b = shell_quote(CURRENT_PROTOCOL_BASELINE);
    command.append(b.as_str());
    command.append(" --term ");
    let t = shell_quote(term);
    command.append(t.as_str());
    let ghost head = command@;
    proof {
        assert(head =~= "sh -c "@ + shell_quote_spec(script@) + " sh "@ + shell_quote_spec(
            CURRENT_PROTOCOL_BASELINE@,
        ) + " --term "@ + shell_quote_spec(term@));
        assert(server_args@.subrange(0, 0) =~= Seq::<&str>::empty());
    }
    let n = server_args.len();
    let mut i: usize = 0;
    while i < n
        invariant
            i <= n,
            n == server_args@.len(),
            command@ == head + quoted_args(server_args@.subrange(0, i as int)),
        decreases n - i,
    {
        command.append(" ");
        let a = shell_quote(server_args[i]);
        command.append(a.as_str());
        proof {
            let after = server_args@.subrange(0, i + 1);
            assert(after.drop_last() =~= server_args@.subrange(0, i as int));
            assert(after.last() == server_args@[i as int]);
            assert(command@ =~= head + quoted_args(after));
        }
        i = i + 1;
    }
    proof {
        assert(server_args@.subrange(0, n as int) =~= server_args@);
    }
    command
}

/// Whether a local `TERM` value is worth forwarding: it must be non-empty and
/// not `dumb`.
pub fn is_useful_term(term: &str) -> (r: bool)
    ensures
        r == (term@.len() > 0 && term@ != "dumb"@),
{
    proof {
        reveal_strlit("dumb");
    }
    let n = term.unicode_len();
    if n == 0 {
        return false;
    }
    if n != 4 {
        return true;
    }
    let dumb = term.get_char(0) == 'd' && term.get_char(1) == 'u' && term.get_char(2) == 'm'
        && term.get_char(3) == 'b';
    proof {
        if dumb {
            assert(term@ =~= "dumb"@);
        } else {
            assert(term@ != "dumb"@);
        }
    }
    !dumb
}

/// The word that a POSIX shell reads from `w`: characters inside single
/// quotes are taken as they are, a backslash outside quotes takes the next
/// character as it is, and only shell-safe characters may stand unquoted.
/// `quoted` says whether reading starts inside single quotes; `None` when
/// the text is not such a word.
pub open spec fn shell_word_value(w: Seq<char>, quoted: bool) -> Option<Seq<char>>
    decreases w.len(),
{
    if w.len() == 0 {
        if quoted {
            None
        } else {
            Some(Seq::empty())
        }
    } else if quoted {
        if w[0] == '\'' {
            shell_word_value(w.skip(1), false)
        } else {
            match shell_word_value(w.skip(1), true) {
                Some(rest) => Some(seq![w[0]] + rest),
                None => None,
            }
        }
    } else if w[0] == '\'' {
        shell_word_value(w.skip(1), true)
    } else if w[0] == '\\' {
        if w.len() >= 2 {
            match shell_word_value(w.skip(2), false) {
                Some(rest) => Some(seq![w[1]] + rest),
                None => None,
            }
        } else {
            None
        }
    } else if is_shell_safe_char(w[0]) {
        match shell_word_value(w.skip(1), false) {
            Some(rest) => Some(seq![w[0]] + rest),
            None => None,
        }
    } else {
        None
    }
}

proof fn lemma_escape_concat(a: Seq<char>, b: Seq<char>)
    ensures
        escape_single_quotes(a + b) == escape_single_quotes(a) + escape_single_quotes(b),
    decreases b.len(),
{
    if b.len() == 0 {
        assert(a + b =~= a);
        assert(escape_single_quotes(a) + escape_single_quotes(b) =~= escape_single_quotes(a));
    } else {
        lemma_escape_concat(a, b.drop_last());
        assert((a + b).drop_last() =~= a + b.drop_last());
        assert((a + b).last() == b.last());
    }
}

proof fn lemma_escape_front(s: Seq<char>)
    requires
        s.len() > 0,
    ensures
        escape_single_quotes(s) == (if s[0] == '\'' {
            seq!['\'', '\\', '\'', '\'']
        } else {
            seq![s[0]]
        }) + escape_single_quotes(s.skip(1)),
{
    let head = seq![s[0]];
    assert(s =~= head + s.skip(1));
    lemma_escape_concat(head, s.skip(1));
    assert(escape_single_quotes(Seq::<char>::empty()) =~= Seq::<char>::empty());
    assert(head.drop_last() =~= Seq::<char>::empty());
    assert(head.last() == s[0]);
    assert(escape_single_quotes(head) =~= (if s[0] == '\'' {
        seq!['\'', '\\', '\'', '\'']
    } else {
        seq![s[0]]
    }));
}

proof fn lemma_read_escaped(s: Seq<char>)
    ensures
        shell_word_value(escape_single_quotes(s) + seq!['\''], true) == Some(s),
    decreases s.len(),
{
    let w = escape_single_quotes(s) + seq!['\''];
    if s.len() == 0 {
        assert(escape_single_quotes(s) =~= Seq::<char>::empty());
        assert(w =~= seq!['\'']);
        assert(w.skip(1) =~= Seq::<char>::empty());
        assert(shell_word_value(w.skip(1), false) == Some(Seq::<char>::empty()));
        assert(s =~= Seq::<char>::empty());
    } else {
        let rest = s.skip(1);
        lemma_escape_front(s);
        lemma_read_escaped(rest);
        let tail = escape_single_quotes(rest) + seq!['\''];
        if s[0] == '\'' {
            let w1 = seq!['\\', '\'', '\''] + tail;
            let w2 = seq!['\''] + tail;
            assert(w =~= seq!['\'', '\\', '\'', '\''] + tail);
            assert(w.skip(1) =~= w1);
            assert(w1.skip(2) =~= w2);
            assert(w2.skip(1) =~= tail);
            assert(shell_word_value(w2, false) == Some(rest));
            assert(shell_word_value(w1, false) == Some(seq!['\''] + rest));
            assert(shell_word_value(w, true) == Some(seq!['\''] + rest));
            assert(s =~= seq!['\''] + rest);
        } else {
            assert(w =~= seq![s[0]] + tail);
            assert(w.skip(1) =~= tail);
            assert(shell_word_value(w, true) == Some(seq![s[0]] + rest));
            assert(s =~= seq![s[0]] + rest);
        }
    }
}

proof fn lemma_read_safe(s: Seq<char>)
    requires
        forall|i: int| 0 <= i < s.len() ==> is_shell_safe_char(#[trigger] s[i]),
    ensures
        shell_word_value(s, false) == Some(s),
    decreases s.len(),
{
    if s.len() > 0 {
        let rest = s.skip(1);
        assert forall|i: int| 0 <= i < rest.len() implies is_shell_safe_char(#[trigger] rest[i]) by {
            assert(rest[i] == s[i + 1]);
        }
        assert(is_shell_safe_char(s[0]));
        lemma_read_safe(rest);
        assert(s =~= seq![s[0]] + rest);
    }
}

/// A quoted word is read back by the shell as exactly the text that was
/// quoted, so the bootstrap script, the baseline, the terminal type and every
/// server argument reach the remote side unchanged.
pub proof fn lemma_shell_quote_round_trip(s: Seq<char>)
    ensures
        shell_word_value(shell_quote_spec(s), false) == Some(s),
{
    if forall|i: int| 0 <= i < s.len() ==> is_shell_safe_char(#[trigger] s[i]) {
        lemma_read_safe(s);
    } else {
        let w = seq!['\''] + escape_single_quotes(s) + seq!['\''];
        lemma_read_escaped(s);
        assert(w.skip(1) =~= escape_single_quotes(s) + seq!['\'']);
    }
}

/// The words that a POSIX shell reads from a command line whose words are
/// separated by single spaces, quoted as `shell_word_value` reads them:
/// `quoted` says whether reading is inside single quotes and `cur` holds
/// the word read so far; `None` when the text is not such a line.
pub open spec fn shell_words(c: Seq<char>, quoted: bool, cur: Seq<char>) -> Option<Seq<Seq<char>>>
    decreases c.len(),
{
    if c.len() == 0 {
        if quoted {
            None
        } else {
            Some(seq![cur])
        }
    } else if quoted {
        if c[0] == '\'' {
            shell_words(c.skip(1), false, cur)
        } else {
            shell_words(c.skip(1), true, cur.push(c[0]))
        }
    } else if c[0] == ' ' {
        match shell_words(c.skip(1), false, Seq::empty()) {
            Some(ws) => Some(seq![cur] + ws),
            None => None,
        }
    } else if c[0] == '\'' {
        shell_words(c.skip(1), true, cur)
    } else if c[0] == '\\' {
        if c.len() >= 2 {
            shell_words(c.skip(2), false, cur.push(c[1]))
        } else {
            None
        }
    } else if is_shell_safe_char(c[0]) {
        shell_words(c.skip(1), false, cur.push(c[0]))
    } else {
        None
    }
}

/// `words` with `w` put in front, when there are words.
pub open spec fn prepend_word(w: Seq<char>, words: Option<Seq<Seq<char>>>) -> Option<Seq<Seq<char>>> {
    match words {
        Some(ws) => Some(seq![w] + ws),
        None => None,
    }
}

/// The texts of the server arguments.
pub open spec fn arg_texts(args: Seq<&str>) -> Seq<Seq<char>> {
    Seq::new(args.len(), |i: int| args[i]@)
}

proof fn lemma_words_safe(s: Seq<char>, rest: Seq<char>, cur: Seq<char>)
    requires
        forall|i: int| 0 <= i < s.len() ==> is_shell_safe_char(#[trigger] s[i]),
    ensures
        shell_words(s + rest, false, cur) == shell_words(rest, false, cur + s),
    decreases s.len(),
{
    if s.len() == 0 {
        assert(s + rest =~= rest);
        assert(cur + s =~= cur);
    } else {
        let t = s.skip(1);
        assert forall|i: int| 0 <= i < t.len() implies is_shell_safe_char(#[trigger] t[i]) by {
            assert(t[i] == s[i + 1]);
        }
        assert(is_shell_safe_char(s[0]));
        assert((s + rest)[0] == s[0]);
        assert((s + rest).skip(1) =~= t + rest);
        lemma_words_safe(t, rest, cur.push(s[0]));
        assert(cur.push(s[0]) + t =~= cur + s);
    }
}

proof fn lemma_words_escaped(s: Seq<char>, rest: Seq<char>, cur: Seq<char>)
    ensures
        shell_words(escape_single_quotes(s) + seq!['\''] + rest, true, cur) == shell_words(
            rest,
            false,
            cur + s,
        ),
    decreases s.len(),
{
    if s.len() == 0 {
        assert(escape_single_quotes(s) =~= Seq::<char>::empty());
        let c = escape_single_quotes(s) + seq!['\''] + rest;
        assert(c[0] == '\'');
        assert(c.skip(1) =~= rest);
        assert(cur + s =~= cur);
    } else {
        let t = s.skip(1);
        lemma_escape_front(s);
        lemma_words_escaped(t, rest, if s[0] == '\'' {
            cur.push('\'')
        } else {
            cur.push(s[0])
        });
        let tail = escape_single_quotes(t) + seq!['\''] + rest;
        let c = escape_single_quotes(s) + seq!['\''] + rest;
        if s[0] == '\'' {
            let c1 = seq!['\\', '\'', '\''] + tail;
            let c2 = seq!['\''] + tail;
            assert(c =~= seq!['\'', '\\', '\'', '\''] + tail);
            assert(c[0] == '\'');
            assert(c.skip(1) =~= c1);
            assert(shell_words(c, true, cur) == shell_words(c1, false, cur));
            assert(c1[0] == '\\' && c1[1] == '\'' && c1.len() >= 2);
            assert(c1.skip(2) =~= c2);
            assert(shell_words(c1, false, cur) == shell_words(c2, false, cur.push('\'')));
            assert(c2[0] == '\'');
            assert(c2.skip(1) =~= tail);
            assert(shell_words(c2, false, cur.push('\'')) == shell_words(
                tail,
                true,
                cur.push('\''),
            ));
            assert(cur.push('\'') + t =~= cur + s);
        } else {
            assert(c =~= seq![s[0]] + tail);
            assert(c[0] == s[0]);
            assert(c.skip(1) =~= tail);
            assert(shell_words(c, true, cur) == shell_words(tail, true, cur.push(s[0])));
            assert(cur.push(s[0]) + t =~= cur + s);
        }
    }
}

proof fn lemma_words_quoted(s: Seq<char>, rest: Seq<char>, cur: Seq<char>)
    ensures
        shell_words(shell_quote_spec(s) + rest, false, cur) == shell_words(rest, false, cur + s),
{
    if forall|i: int| 0 <= i < s.len() ==> is_shell_safe_char(#[trigger] s[i]) {
        lemma_words_safe(s, rest, cur);
    } else {
        let c = seq!['\''] + escape_single_quotes(s) + seq!['\''] + rest;
        assert(shell_quote_spec(s) + rest =~= c);
        assert(c[0] == '\'');
        assert(c.skip(1) =~= escape_single_quotes(s) + seq!['\''] + rest);
        lemma_words_escaped(s, rest, cur);
    }
}

proof fn lemma_words_space(rest: Seq<char>, cur: Seq<char>)
    ensures
        shell_words(seq![' '] + rest, false, cur) == prepend_word(
            cur,
            shell_words(rest, false, Seq::empty()),
        ),
{
    let c = seq![' '] + rest;
    assert(c[0] == ' ');
    assert(c.skip(1) =~= rest);
}

proof fn lemma_quoted_args_front(args: Seq<&str>)
    requires
        args.len() > 0,
    ensures
        quoted_args(args) == seq![' '] + shell_quote_spec(args[0]@) + quoted_args(args.skip(1)),
    decreases args.len(),
{
    reveal_strlit(" ");
    if args.len() == 1 {
        assert(args.drop_last().len() == 0);
        assert(quoted_args(args.drop_last()) =~= Seq::<char>::empty());
        assert(args.last() == args[0]);
        assert(" "@ =~= seq![' ']);
        assert(args.skip(1).len() == 0);
        assert(quoted_args(args) =~= seq![' '] + shell_quote_spec(args[0]@));
        assert(quoted_args(args.skip(1)) =~= Seq::<char>::empty());
        assert(seq![' '] + shell_quote_spec(args[0]@) + Seq::<char>::empty() =~= seq![' ']
            + shell_quote_spec(args[0]@));
    } else {
        let d = args.drop_last();
        lemma_quoted_args_front(d);
        assert(" "@ =~= seq![' ']);
        assert(d[0] == args[0]);
        assert(d.skip(1) =~= args.skip(1).drop_last());
        assert(args.skip(1).last() == args.last());
        assert(quoted_args(args) =~= seq![' '] + shell_quote_spec(args[0]@) + quoted_args(
            args.skip(1),
        ));
    }
}

proof fn lemma_words_args(args: Seq<&str>, s: Seq<char>, cur: Seq<char>)
    ensures
        shell_words(shell_quote_spec(s) + quoted_args(args), false, cur) == Some(
            seq![cur + s] + arg_texts(args),
        ),
    decreases args.len(),
{
    if args.len() == 0 {
        lemma_words_quoted(s, quoted_args(args), cur);
        assert(quoted_args(args) =~= Seq::<char>::empty());
        assert(arg_texts(args) =~= Seq::<Seq<char>>::empty());
        assert(seq![cur + s] + arg_texts(args) =~= seq![cur + s]);
    } else {
        lemma_quoted_args_front(args);
        let x = shell_quote_spec(args[0]@) + quoted_args(args.skip(1));
        assert(shell_quote_spec(s) + quoted_args(args) =~= shell_quote_spec(s) + (seq![' '] + x));
        lemma_words_quoted(s, seq![' '] + x, cur);
        lemma_words_space(x, cur + s);
        lemma_words_args(args.skip(1), args[0]@, Seq::empty());
        assert(Seq::<char>::empty() + args[0]@ =~= args[0]@);
        assert(seq![cur + s] + (seq![args[0]@] + arg_texts(args.skip(1))) =~= seq![cur + s]
            + arg_texts(args));
    }
}

proof fn lemma_words_safe_word(w: Seq<char>, rest: Seq<char>)
    requires
        forall|i: int| 0 <= i < w.len() ==> is_shell_safe_char(#[trigger] w[i]),
    ensures
        shell_words(w + (seq![' '] + rest), false, Seq::empty()) == prepend_word(
            w,
            shell_words(rest, false, Seq::empty()),
        ),
{
    lemma_words_safe(w, seq![' '] + rest, Seq::empty());
    assert(Seq::<char>::empty() + w =~= w);
    lemma_words_space(rest, w);
}

proof fn lemma_words_quoted_word(v: Seq<char>, rest: Seq<char>)
    ensures
        shell_words(shell_quote_spec(v) + (seq![' '] + rest), false, Seq::empty()) == prepend_word(
            v,
            shell_words(rest, false, Seq::empty()),
        ),
{
    lemma_words_quoted(v, seq![' '] + rest, Seq::empty());
    assert(Seq::<char>::empty() + v =~= v);
    lemma_words_space(rest, v);
}

/// The remote command, as separated parts.
spec fn remote_command_parts(script: Seq<char>, args: Seq<&str>, term: Seq<char>) -> Seq<char> {
    let sp = seq![' '];
    seq!['s', 'h'] + (sp + (seq!['-', 'c'] + (sp + (shell_quote_spec(script) + (sp + (seq![
        's',
        'h',
    ] + (sp + (shell_quote_spec(CURRENT_PROTOCOL_BASELINE@) + (sp + (seq![
        '-',
        '-',
        't',
        'e',
        'r',
        'm',
    ] + (sp + (shell_quote_spec(term) + quoted_args(args)))))))))))))
}

proof fn lemma_literal_front(lit: Seq<char>, a: Seq<char>, b: Seq<char>, rest: Seq<char>)
    requires
        lit == a + (seq![' '] + b),
    ensures
        lit + rest == a + (seq![' '] + (b + rest)),
{
    lemma_concat_associative(seq![' '], b, rest);
    lemma_concat_associative(a, seq![' '] + b, rest);
}

proof fn lemma_remote_command_parts(script: Seq<char>, args: Seq<&str>, term: Seq<char>)
    ensures
        remote_shell_command_spec(script, args, term) == remote_command_parts(script, args, term),
{
    reveal_strlit("sh -c ");
    reveal_strlit(" sh ");
    reveal_strlit(" --term ");
    let sp = seq![' '];
    let e = Seq::<char>::empty();
    let l1 = "sh -c "@;
    let l2 = " sh "@;
    let l3 = " --term "@;
    let q1 = shell_quote_spec(script);
    let q2 = shell_quote_spec(CURRENT_PROTOCOL_BASELINE@);
    let q3 = shell_quote_spec(term);
    let qa = quoted_args(args);
    let sh = seq!['s', 'h'];
    let dc = seq!['-', 'c'];
    let dterm = seq!['-', '-', 't', 'e', 'r', 'm'];

    lemma_concat_associative(l1 + q1 + l2 + q2 + l3, q3, qa);
    lemma_concat_associative(l1 + q1 + l2 + q2, l3, q3 + qa);
    lemma_concat_associative(l1 + q1 + l2, q2, l3 + (q3 + qa));
    lemma_concat_associative(l1 + q1, l2, q2 + (l3 + (q3 + qa)));
    lemma_concat_associative(l1, q1, l2 + (q2 + (l3 + (q3 + qa))));
    let r3 = q3 + qa;
    let r2 = q2 + (l3 + r3);
    let r1 = q1 + (l2 + r2);
    assert(remote_shell_command_spec(script, args, term) == l1 + r1);

    assert(l3 =~= e + (sp + (dterm + sp)));
    lemma_literal_front(dterm + sp, dterm, e, r3);
    assert(dterm + sp + r3 == dterm + (sp + r3));
    lemma_literal_front(l3, e, dterm + sp, r3);
    assert(e + (sp + (dterm + (sp + r3))) =~= sp + (dterm + (sp + r3)));
    assert(l3 + r3 == sp + (dterm + (sp + r3)));

    assert(l2 =~= e + (sp + (sh + sp)));
    lemma_literal_front(sh + sp, sh, e, r2);
    assert(sh + sp + r2 == sh + (sp + r2));
    lemma_literal_front(l2, e, sh + sp, r2);
    assert(e + (sp + (sh + (sp + r2))) =~= sp + (sh + (sp + r2)));
    assert(l2 + r2 == sp + (sh + (sp + r2)));

    assert(l1 =~= sh + (sp + (dc + sp)));
    lemma_literal_front(l1, sh, dc + sp, r1);
    lemma_literal_front(dc + sp, dc, e, r1);
    assert(dc + sp + r1 == dc + (sp + r1));
    assert(l1 + r1 == sh + (sp + (dc + (sp + r1))));
}

/// The shell that runs the remote command splits it into exactly the words
/// `sh`, `-c`, the script, `sh`, the protocol baseline, `--term`, the
/// terminal type and the server arguments, whatever characters they hold.
pub proof fn lemma_remote_command_words(script: Seq<char>, args: Seq<&str>, term: Seq<char>)
    ensures
        shell_words(remote_shell_command_spec(script, args, term), false, Seq::empty()) == Some(
            seq!["sh"@, "-c"@, script, "sh"@, CURRENT_PROTOCOL_BASELINE@, "--term"@, term]
                + arg_texts(args),
        ),
{
    reveal_strlit("sh");
    reveal_strlit("-c");
    reveal_strlit("--term");
    reveal_strlit("0.1");
    let e = Seq::<char>::empty();
    let sh = seq!['s', 'h'];
    let dc = seq!['-', 'c'];
    let dterm = seq!['-', '-', 't', 'e', 'r', 'm'];
    let sp = seq![' '];
    let b = CURRENT_PROTOCOL_BASELINE@;
    let a = arg_texts(args);
    assert forall|i: int| 0 <= i < sh.len() implies is_shell_safe_char(#[trigger] sh[i]) by {}
    assert forall|i: int| 0 <= i < dc.len() implies is_shell_safe_char(#[trigger] dc[i]) by {}
    assert forall|i: int| 0 <= i < dterm.len() implies is_shell_safe_char(#[trigger] dterm[i]) by {}

    let r4 = shell_quote_spec(term) + quoted_args(args);
    lemma_words_args(args, term, e);
    assert(e + term =~= term);
    let r3 = dterm + (sp + r4);
    lemma_words_safe_word(dterm, r4);
    let r2 = shell_quote_spec(b) + (sp + r3);
    lemma_words_quoted_word(b, r3);
    let r1 = sh + (sp + r2);
    lemma_words_safe_word(sh, r2);
    let r0 = shell_quote_spec(script) + (sp + r1);
    lemma_words_quoted_word(script, r1);
    let rc = dc + (sp + r0);
    lemma_words_safe_word(dc, r0);
    lemma_words_safe_word(sh, rc);
    lemma_remote_command_parts(script, args, term);
    assert(remote_command_parts(script, args, term) == sh + (sp + rc));

    assert("sh"@ =~= sh);
    assert("-c"@ =~= dc);
    assert("--term"@ =~= dterm);
    assert(seq![sh] + (seq![dc] + (seq![script] + (seq![sh] + (seq![b] + (seq![dterm] + (
    seq![term] + a)))))) =~= seq![sh, dc, script, sh, b, dterm, term] + a);
}

/// The terminal type sent to the remote side for the local `TERM` value:
/// that value when it is worth forwarding, `DEFAULT_TERM` otherwise.
pub fn terminal_type(term: Option<&str>) -> (r: String)
    ensures
        r@ == match term {
            Some(t) => if t@.len() > 0 && t@ != "dumb"@ {
                t@
            } else {
                DEFAULT_TERM@
            },
            None => DEFAULT_TERM@,
        },
{
    match term {
        Some(t) => {
            if is_useful_term(t) {
                t.to_owned()
            } else {
                DEFAULT_TERM.to_owned()
            }
        },
        None => DEFAULT_TERM.to_owned(),
    }
}

} // verus!
