use vstd::prelude::*;

use crate::builtins::{ChangeDirCommand, EchoComand, ExitComand, PwdComand, TypeComand};
use crate::executable::Executable;
use crate::text::{clone_from, is_named, push_char, texts};
use crate::tokenize::{
    all_non_empty, join_words, lemma_join_push, lemma_tokens_non_empty, scan, step, tokens_of,
    ScanState,
};

verus! {

/// One line of input, parsed.
pub enum Command {
    ExitCmd(ExitComand),
    EchoCmd(EchoComand),
    TypeCmd(TypeComand),
    PWDCmd(PwdComand),
    CDcmd(ChangeDirCommand),
    OtherCmd(Executable),
    /// The line held no token.
    CmdNotFound,
}

/// `c` is the command that the tokens `ts` stand for.
pub open spec fn parsed_from(c: Command, ts: Seq<Seq<char>>) -> bool {
    if ts.len() == 0 {
        c is CmdNotFound
    } else {
        let name = ts[0];
        let args = ts.drop_first();
        if name == "exit"@ {
            c matches Command::ExitCmd(e) && texts(e.args@) == args
        } else if name == "echo"@ {
            c matches Command::EchoCmd(e) && e.text@ == join_words(args)
        } else if name == "type"@ {
            c matches Command::TypeCmd(t) && texts(t.args@) == args
        } else if name == "pwd"@ {
            c is PWDCmd
        } else if name == "cd"@ {
            c matches Command::CDcmd(d) && texts(d.args@) == args
        } else {
            c matches Command::OtherCmd(x) && x.name@ == name && texts(x.args@) == args
        }
    }
}

/// The strings of `v` from position `from` on, separated by single spaces.
pub fn join_from(v: &Vec<String>, from: usize) -> (r: String)
    requires
        from <= v.len(),
    ensures
        r@ == join_words(texts(v@).subrange(from as int, v.len() as int)),
{
    let mut r = String::new();
    let mut k: usize = from;
    while k < v.len()
        invariant
            from <= k <= v.len(),
            r@ == join_words(texts(v@).subrange(from as int, k as int)),
        decreases v.len() - k,
    {
        let ghost ws = texts(v@).subrange(from as int, k as int);
        proof {
            lemma_join_push(ws, v@[k as int]@);
            assert(texts(v@).subrange(from as int, k + 1) =~= ws.push(v@[k as int]@));
        }
        if k > from {
            r.append(" ");
            proof {
                reveal_strlit(" ");
            }
        }
        r.append(v[k].as_str());
        k = k + 1;
    }
    r
}

impl Command {
    /// The command that a line stands for.
    pub fn parse(input: &str) -> (r: Self)
        ensures
            parsed_from(r, tokens_of(input@)),
    {
        let tokens = Command::input_process(input);
        if tokens.len() == 0 {
            return Command::CmdNotFound;
        }
        let cmd = &tokens[0];
        let args = clone_from(&tokens, 1);
        proof {
            assert(texts(tokens@).subrange(1, tokens.len() as int) =~= tokens_of(input@).drop_first());
        }
        if is_named(cmd, "exit") {
            Command::ExitCmd(ExitComand { args })
        } else if is_named(cmd, "echo") {
            Command::EchoCmd(EchoComand { text: join_from(&tokens, 1) })
        } else if is_named(cmd, "type") {
            Command::TypeCmd(TypeComand { args })
        } else if is_named(cmd, "pwd") {
            Command::PWDCmd(PwdComand)
        } else if is_named(cmd, "cd") {
            Command::CDcmd(ChangeDirCommand { args })
        } else {
            Command::OtherCmd(Executable { name: cmd.clone(), args })
        }
    }

    /// Splits a line into tokens, honouring quotes and backslash escapes.
    pub fn input_process(input: &str) -> (r: Vec<String>)
        ensures
            texts(r@) == tokens_of(input@),
            all_non_empty(texts(r@)),
    {
        let n = input.unicode_len();
        let mut in_single = false;
        let mut in_double = false;
        let mut escape_next = false;
        let mut token = String::new();
        let mut output: Vec<String> = Vec::new();
        let mut i: usize = 0;
        proof {
            lemma_tokens_non_empty(input@);
            assert(texts(output@) =~= seq![]);
        }
        while i < n
            invariant
                n == input@.len(),
                i <= n,
                scan(
                    input@,
                    i as int,
                    ScanState { in_single, in_double, escape_next, token: token@, out: texts(output@) },
                ) == tokens_of(input@),
            decreases n - i,
        {
            let ghost st = ScanState { in_single, in_double, escape_next, token: token@, out: texts(output@) };
            let ghost nx = step(input@, i as int, st);
            let c = input.get_char(i);
            if escape_next {
                push_char(&mut token, c);
                escape_next = false;
                i = i + 1;
            } else if c == '\\' {
                if in_single {
                    push_char(&mut token, '\\');
                    i = i + 1;
                } else if in_double {
                    if i + 1 < n && (input.get_char(i + 1) == '"' || input.get_char(i + 1) == '\\') {
                        push_char(&mut token, input.get_char(i + 1));
                        i = i + 2;
                    } else {
                        push_char(&mut token, '\\');
                        i = i + 1;
                    }
                } else {
                    escape_next = true;
                    i = i + 1;
                }
            } else if c == ' ' {
                if in_single || in_double {
                    push_char(&mut token, c);
                } else if !token.as_str().is_empty() {
                    let ghost before = texts(output@);
                    output.push(token);
                    assert(texts(output@) =~= before.push(st.token));
                    token = String::new();
                }
                i = i + 1;
            } else if c == '"' {
                if in_single {
                    push_char(&mut token, c);
                } else {
                    in_double = !in_double;
                }
                i = i + 1;
            } else if c == '\'' {
                if in_double {
                    push_char(&mut token, c);
                } else {
                    in_single = !in_single;
                }
                i = i + 1;
            } else {
                push_char(&mut token, c);
                i = i + 1;
            }
            assert(nx.0.in_single == in_single);
            assert(nx.0.in_double == in_double);
            assert(nx.0.escape_next == escape_next);
            assert(nx.0.token == token@);
            assert(nx.0.out == texts(output@));
            assert(nx.1 == i);
        }
        if !token.as_str().is_empty() {
            let ghost before = texts(output@);
            let ghost tk = token@;
            output.push(token);
            assert(texts(output@) =~= before.push(tk));
        }
        output
    }
}

} // verus!
