use vstd::prelude::*;

use crate::text::{chars_of, is_whitespace, is_whitespace_char, string_views, substring};

verus! {

/// A token of mond source text. An atom is given by where it starts and ends in
/// the source's characters.
#[derive(Debug, Clone, Copy, PartialEq, Eq)]
pub enum Token {
    /// `(`
    OpenParen,
    /// `[` or `{`
    Open,
    /// `)`, `]` or `}`
    Close,
    /// a string literal
    Str,
    /// any other run of characters, up to white space, a bracket or a quote
    Atom { start: usize, end: usize },
}

/// Whether `c` opens a bracket.
pub open spec fn is_open(c: char) -> bool {
    c == '(' || c == '[' || c == '{'
}

/// Whether `c` closes a bracket.
pub open spec fn is_close(c: char) -> bool {
    c == ')' || c == ']' || c == '}'
}

/// Whether `c` can stand inside an atom.
pub open spec fn is_atom_char(c: char) -> bool {
    !is_whitespace(c) && !is_open(c) && !is_close(c) && c != '"'
}

/// Where the atom that goes on at `i` ends.
pub open spec fn atom_end(s: Seq<char>, i: int) -> int
    decreases s.len() - i,
{
    if i < 0 || i >= s.len() || !is_atom_char(s[i]) {
        i
    } else {
        atom_end(s, i + 1)
    }
}

/// Where the string literal whose text starts at `i` ends: the index of its
/// closing quote, or the end of `s` when it has none. A backslash escapes the
/// character after it.
pub open spec fn string_end(s: Seq<char>, i: int) -> int
    decreases s.len() + 2 - i,
{
    if i < 0 || i >= s.len() {
        s.len() as int
    } else if s[i] == '"' {
        i
    } else if s[i] == '\\' {
        string_end(s, i + 2)
    } else {
        string_end(s, i + 1)
    }
}

pub proof fn lemma_atom_end_bound(s: Seq<char>, i: int)
    requires
        0 <= i <= s.len(),
    ensures
        i <= atom_end(s, i) <= s.len(),
        i < s.len() && is_atom_char(s[i]) ==> atom_end(s, i) > i,
    decreases s.len() - i,
{
    if i < s.len() && is_atom_char(s[i]) {
        lemma_atom_end_bound(s, i + 1);
    }
}

pub proof fn lemma_string_end_bound(s: Seq<char>, i: int)
    requires
        0 <= i,
    ensures
        string_end(s, i) >= i || string_end(s, i) == s.len(),
        string_end(s, i) <= s.len(),
        string_end(s, i) >= 0,
    decreases s.len() + 2 - i,
{
    if i < s.len() && s[i] != '"' {
        if s[i] == '\\' {
            lemma_string_end_bound(s, i + 2);
        } else {
            lemma_string_end_bound(s, i + 1);
        }
    }
}

/// The tokens of `s` from index `i` on. White space separates tokens and is
/// dropped.
pub open spec fn tokens_from(s: Seq<char>, i: int) -> Seq<Token>
    decreases s.len() + 2 - i,
{
    if i < 0 || i >= s.len() {
        Seq::empty()
    } else if is_whitespace(s[i]) {
        tokens_from(s, i + 1)
    } else if s[i] == '(' {
        seq![Token::OpenParen] + tokens_from(s, i + 1)
    } else if is_open(s[i]) {
        seq![Token::Open] + tokens_from(s, i + 1)
    } else if is_close(s[i]) {
        seq![Token::Close] + tokens_from(s, i + 1)
    } else if s[i] == '"' {
        proof {
            lemma_string_end_bound(s, i + 1);
        }
        seq![Token::Str] + tokens_from(s, string_end(s, i + 1) + 1)
    } else {
        proof {
            lemma_atom_end_bound(s, i);
        }
        seq![Token::Atom { start: i as usize, end: atom_end(s, i) as usize }] + tokens_from(
            s,
            atom_end(s, i),
        )
    }
}

/// The tokens of the source text `s`.
pub open spec fn tokens(s: Seq<char>) -> Seq<Token> {
    tokens_from(s, 0)
}

/// Every atom token of `s` from `i` on lies inside `s` and is not empty.
pub proof fn lemma_tokens_well_formed(s: Seq<char>, i: int)
    requires
        0 <= i,
        s.len() <= usize::MAX,
    ensures
        forall|k: int|
            0 <= k < tokens_from(s, i).len() ==> (#[trigger] tokens_from(s, i)[k] matches Token::Atom {
                start,
                end,
            } ==> start < end <= s.len()),
    decreases s.len() + 2 - i,
{
    if i < s.len() {
        if is_whitespace(s[i]) {
            lemma_tokens_well_formed(s, i + 1);
        } else if is_open(s[i]) || is_close(s[i]) {
            lemma_tokens_well_formed(s, i + 1);
            let rest = tokens_from(s, i + 1);
            assert forall|k: int| 0 <= k < tokens_from(s, i).len() implies (
            #[trigger] tokens_from(s, i)[k] matches Token::Atom { start, end } ==> start < end
                <= s.len()) by {
                if k > 0 {
                    assert(tokens_from(s, i)[k] == rest[k - 1]);
                }
            }
        } else if s[i] == '"' {
            lemma_string_end_bound(s, i + 1);
            let next = string_end(s, i + 1) + 1;
            lemma_tokens_well_formed(s, next);
            let rest = tokens_from(s, next);
            assert forall|k: int| 0 <= k < tokens_from(s, i).len() implies (
            #[trigger] tokens_from(s, i)[k] matches Token::Atom { start, end } ==> start < end
                <= s.len()) by {
                if k > 0 {
                    assert(tokens_from(s, i)[k] == rest[k - 1]);
                }
            }
        } else {
            lemma_atom_end_bound(s, i);
            let next = atom_end(s, i);
            lemma_tokens_well_formed(s, next);
            let rest = tokens_from(s, next);
            assert forall|k: int| 0 <= k < tokens_from(s, i).len() implies (
            #[trigger] tokens_from(s, i)[k] matches Token::Atom { start, end } ==> start < end
                <= s.len()) by {
                if k > 0 {
                    assert(tokens_from(s, i)[k] == rest[k - 1]);
                }
            }
        }
    }
}

/// Splits mond source text, given as its characters, into tokens.
pub fn lex(chars: &Vec<char>) -> (toks: Vec<Token>)
    ensures
        toks@ == tokens(chars@),
{
    let n = chars.len();
    let mut toks: Vec<Token> = Vec::new();
    let mut i: usize = 0;
    while i < n
        invariant
            n == chars@.len(),
            i <= n,
            toks@ + tokens_from(chars@, i as int) == tokens(chars@),
        decreases n - i,
    {
        let c = chars[i];
        let ghost before = toks@;
        if is_whitespace_char(c) {
            i = i + 1;
        } else if c == '(' {
            toks.push(Token::OpenParen);
            assert(before + tokens_from(chars@, i as int) =~= toks@ + tokens_from(
                chars@,
                i + 1,
            ));
            i = i + 1;
        } else if c == '[' || c == '{' {
            toks.push(Token::Open);
            assert(before + tokens_from(chars@, i as int) =~= toks@ + tokens_from(
                chars@,
                i + 1,
            ));
            i = i + 1;
        } else if c == ')' || c == ']' || c == '}' {
            toks.push(Token::Close);
            assert(before + tokens_from(chars@, i as int) =~= toks@ + tokens_from(
                chars@,
                i + 1,
            ));
            i = i + 1;
        } else if c == '"' {
            let mut j: usize = i + 1;
            while j < n && chars[j] != '"'
                invariant
                    n == chars@.len(),
                    i < j <= n,
                    string_end(chars@, j as int) == string_end(chars@, i + 1),
                decreases n - j,
            {
                if chars[j] == '\\' {
                    assert(string_end(chars@, j as int) == string_end(chars@, j + 2));
                    if j + 1 < n {
                        j = j + 2;
                    } else {
                        assert(string_end(chars@, j + 2) == n);
                        j = n;
                    }
                } else {
                    assert(string_end(chars@, j as int) == string_end(chars@, j + 1));
                    j = j + 1;
                }
            }
            assert(string_end(chars@, i + 1) == j);
            toks.push(Token::Str);
            let next = if j < n {
                j + 1
            } else {
                n
            };
            assert(tokens_from(chars@, j + 1) == tokens_from(chars@, next as int));
            assert(before + tokens_from(chars@, i as int) =~= toks@ + tokens_from(
                chars@,
                next as int,
            ));
            i = next;
        } else {
            let mut j: usize = i + 1;
            while j < n && !is_whitespace_char(chars[j]) && chars[j] != '(' && chars[j] != '['
                && chars[j] != '{' && chars[j] != ')' && chars[j] != ']' && chars[j] != '}'
                && chars[j] != '"'
                invariant
                    n == chars@.len(),
                    i < j <= n,
                    atom_end(chars@, j as int) == atom_end(chars@, i as int),
                decreases n - j,
            {
                j = j + 1;
            }
            assert(atom_end(chars@, j as int) == j);
            toks.push(Token::Atom { start: i, end: j });
            assert(before + tokens_from(chars@, i as int) =~= toks@ + tokens_from(
                chars@,
                j as int,
            ));
            i = j;
        }
    }
    assert(toks@ =~= tokens(chars@));
    toks
}

/// Whether `t` is an atom of `s` whose text is `word`.
pub open spec fn atom_is(s: Seq<char>, t: Token, word: Seq<char>) -> bool {
    t matches Token::Atom { start, end } && s.subrange(start as int, end as int) == word
}

/// The text of the atom `t` of `s`.
pub open spec fn atom_text(s: Seq<char>, t: Token) -> Seq<char> {
    s.subrange(t->start as int, t->end as int)
}

/// The name that a form starting at token `i` exports: one that opens with
/// `(pub let <name>`.
pub open spec fn export_at(s: Seq<char>, toks: Seq<Token>, i: int) -> Option<Seq<char>> {
    if 0 <= i && i + 3 < toks.len() && toks[i] is OpenParen && atom_is(s, toks[i + 1], seq!['p', 'u', 'b'])
        && atom_is(s, toks[i + 2], seq!['l', 'e', 't']) && toks[i + 3] is Atom {
        Some(atom_text(s, toks[i + 3]))
    } else {
        None
    }
}

/// How deep inside brackets the next token stands, after `t`. A closing bracket
/// with nothing open is ignored.
pub open spec fn next_depth(depth: nat, t: Token) -> nat {
    match t {
        Token::OpenParen => depth + 1,
        Token::Open => depth + 1,
        Token::Close => if depth == 0 {
            0
        } else {
            (depth - 1) as nat
        },
        _ => depth,
    }
}

/// The names exported by the top-level forms among the tokens from `i` on, when
/// token `i` stands at bracket depth `depth`.
pub open spec fn exports_from(s: Seq<char>, toks: Seq<Token>, i: int, depth: nat) -> Seq<
    Seq<char>,
>
    decreases toks.len() - i,
{
    if i < 0 || i >= toks.len() {
        Seq::empty()
    } else {
        let here = if depth == 0 && export_at(s, toks, i) is Some {
            seq![export_at(s, toks, i)->0]
        } else {
            Seq::empty()
        };
        here + exports_from(s, toks, i + 1, next_depth(depth, toks[i]))
    }
}

/// The names that mond source text exports, in order: the `<name>` of each
/// top-level form `(pub let <name> ...)`.
pub open spec fn exported(source: Seq<char>) -> Seq<Seq<char>> {
    exports_from(source, tokens(source), 0, 0)
}

/// Whether `t` is an atom of `chars` that reads `w0 w1 w2`.
fn atom_reads(chars: &Vec<char>, t: Token, w0: char, w1: char, w2: char) -> (b: bool)
    requires
        t matches Token::Atom { start, end } ==> start < end <= chars@.len(),
    ensures
        b == atom_is(chars@, t, seq![w0, w1, w2]),
{
    match t {
        Token::Atom { start, end } => {
            if end - start != 3 {
                assert(chars@.subrange(start as int, end as int).len() != 3);
                false
            } else {
                let b = chars[start] == w0 && chars[start + 1] == w1 && chars[start + 2] == w2;
                assert(b ==> chars@.subrange(start as int, end as int) =~= seq![w0, w1, w2]);
                assert(chars@.subrange(start as int, end as int) == seq![w0, w1, w2] ==> (
                chars@.subrange(start as int, end as int)[1] == w1 && chars@.subrange(
                    start as int,
                    end as int,
                )[2] == w2));
                b
            }
        },
        _ => false,
    }
}

/// The names that mond source text exports, in order: the `<name>` of each
/// top-level form `(pub let <name> ...)`.
pub fn exported_names(source: &str) -> (names: Vec<String>)
    ensures
        string_views(names@) == exported(source@),
{
    let chars = chars_of(source);
    let toks = lex(&chars);
    let n = chars.len();
    proof {
        lemma_tokens_well_formed(chars@, 0);
    }
    let ghost s = chars@;
    let mut names: Vec<String> = Vec::new();
    let mut depth: usize = 0;
    let mut i: usize = 0;
    while i < toks.len()
        invariant
            s == chars@,
            toks@ == tokens(s),
            forall|k: int|
                0 <= k < toks@.len() ==> (#[trigger] toks@[k] matches Token::Atom { start, end }
                    ==> start < end <= s.len()),
            i <= toks.len(),
            depth <= i,
            string_views(names@) + exports_from(s, toks@, i as int, depth as nat) == exported(s),
        decreases toks.len() - i,
    {
        let ghost before = string_views(names@);
        let is_export = depth == 0 && toks.len() - i > 3 && match toks[i] {
            Token::OpenParen => true,
            _ => false,
        } && atom_reads(&chars, toks[i + 1], 'p', 'u', 'b') && atom_reads(
            &chars,
            toks[i + 2],
            'l',
            'e',
            't',
        ) && match toks[i + 3] {
            Token::Atom { .. } => true,
            _ => false,
        };
        assert(is_export == (depth == 0 && export_at(s, toks@, i as int) is Some));
        if is_export {
            match toks[i + 3] {
                Token::Atom { start, end } => {
                    let name = substring(&chars, start, end);
                    names.push(name);
                    assert(string_views(names@) =~= before.push(name@));
                },
                _ => {},
            }
        }
        assert(string_views(names@) + exports_from(s, toks@, i + 1, next_depth(depth as nat, toks@[i as int])) =~= before
            + exports_from(s, toks@, i as int, depth as nat));
        depth = match toks[i] {
            Token::OpenParen => depth + 1,
            Token::Open => depth + 1,
            Token::Close => if depth == 0 {
                0
            } else {
                depth - 1
            },
            _ => depth,
        };
        i = i + 1;
    }
    names
}

/// When the characters of `s` from `i` up to `k` can stand in an atom and the
/// one at `k` (if any) cannot, the atom at `i` ends at `k`.
proof fn lemma_atom_end_at(s: Seq<char>, i: int, k: int)
    requires
        0 <= i <= k <= s.len(),
        forall|j: int| i <= j < k ==> is_atom_char(#[trigger] s[j]),
        k == s.len() || !is_atom_char(s[k]),
    ensures
        atom_end(s, i) == k,
    decreases k - i,
{
    if i < k {
        lemma_atom_end_at(s, i + 1, k);
    }
}

/// Whether `c` can be part of a name: it is not white space, a bracket or a
/// double quote.
pub open spec fn is_name_char(c: char) -> bool {
    &&& !is_whitespace(c)
    &&& c != '(' && c != ')' && c != '[' && c != ']' && c != '{' && c != '}'
    &&& c != '"'
}

/// The module text `(pub let <name> {} 1)`.
pub open spec fn single_export_source(name: Seq<char>) -> Seq<char> {
    seq!['(', 'p', 'u', 'b', ' ', 'l', 'e', 't', ' '] + name + seq![' ', '{', '}', ' ', '1', ')']
}

/// The tokens of the form `(pub let <name> {} 1)` standing at offset `o`, for
/// a name of length `l`.
pub open spec fn single_export_tokens(o: int, l: int) -> Seq<Token> {
    seq![
        Token::OpenParen,
        Token::Atom { start: (o + 1) as usize, end: (o + 4) as usize },
        Token::Atom { start: (o + 5) as usize, end: (o + 8) as usize },
        Token::Atom { start: (o + 9) as usize, end: (o + 9 + l) as usize },
        Token::Open,
        Token::Close,
        Token::Atom { start: (o + 13 + l) as usize, end: (o + 14 + l) as usize },
        Token::Close,
    ]
}

/// Whether `name` is a name that `(pub let <name> ...)` can export whole.
pub open spec fn is_name(name: Seq<char>) -> bool {
    name.len() > 0 && forall|j: int| 0 <= j < name.len() ==> is_name_char(#[trigger] name[j])
}

/// How the form `(pub let <name> {} 1)` standing at offset `o` of `s` lexes.
proof fn lemma_single_export_tokens(s: Seq<char>, o: int, name: Seq<char>)
    requires
        is_name(name),
        0 <= o,
        o + name.len() + 15 <= s.len() <= usize::MAX,
        s.subrange(o, o + name.len() + 15) == single_export_source(name),
    ensures
        tokens_from(s, o) == single_export_tokens(o, name.len() as int) + tokens_from(
            s,
            o + name.len() + 15,
        ),
        s.subrange(o + 1, o + 4) == seq!['p', 'u', 'b'],
        s.subrange(o + 5, o + 8) == seq!['l', 'e', 't'],
        s.subrange(o + 9, o + 9 + name.len()) == name,
{
    let l = name.len() as int;
    let f = single_export_source(name);
    assert forall|j: int| 0 <= j < l + 15 implies s[o + j] == #[trigger] f[j] by {
        assert(s.subrange(o, o + l + 15)[j] == s[o + j]);
    }
    assert forall|j: int| 0 <= j < l implies s[o + 9 + j] == name[j] by {
        assert(s[o + 9 + j] == f[9 + j]);
    }
    assert(s[o] == f[0] && f[0] == '(');
    assert(s[o + 1] == f[1] && s[o + 2] == f[2] && s[o + 3] == f[3] && s[o + 4] == f[4]);
    assert(s[o + 5] == f[5] && s[o + 6] == f[6] && s[o + 7] == f[7] && s[o + 8] == f[8]);
    assert(s[o + 9 + l] == f[9 + l] && s[o + 10 + l] == f[10 + l] && s[o + 11 + l] == f[11 + l]);
    assert(s[o + 12 + l] == f[12 + l] && s[o + 13 + l] == f[13 + l] && s[o + 14 + l] == f[14 + l]);
    assert(is_whitespace(' '));
    lemma_atom_end_at(s, o + 1, o + 4);
    lemma_atom_end_at(s, o + 5, o + 8);
    assert forall|j: int| o + 9 <= j < o + 9 + l implies is_atom_char(#[trigger] s[j]) by {
        assert(s[j] == name[j - o - 9]);
    }
    lemma_atom_end_at(s, o + 9, o + 9 + l);
    lemma_atom_end_at(s, o + 13 + l, o + 14 + l);
    let after = tokens_from(s, o + l + 15);
    let a_pub = Token::Atom { start: (o + 1) as usize, end: (o + 4) as usize };
    let a_let = Token::Atom { start: (o + 5) as usize, end: (o + 8) as usize };
    let a_name = Token::Atom { start: (o + 9) as usize, end: (o + 9 + l) as usize };
    let a_one = Token::Atom { start: (o + 13 + l) as usize, end: (o + 14 + l) as usize };
    assert(tokens_from(s, o + 14 + l) == seq![Token::Close] + after);
    assert(tokens_from(s, o + 13 + l) == seq![a_one] + (seq![Token::Close] + after));
    assert(tokens_from(s, o + 12 + l) == tokens_from(s, o + 13 + l));
    assert(tokens_from(s, o + 11 + l) == seq![Token::Close] + tokens_from(s, o + 12 + l));
    assert(tokens_from(s, o + 10 + l) == seq![Token::Open] + tokens_from(s, o + 11 + l));
    assert(tokens_from(s, o + 9 + l) == tokens_from(s, o + 10 + l));
    assert(tokens_from(s, o + 9) == seq![a_name] + tokens_from(s, o + 9 + l));
    assert(tokens_from(s, o + 8) == tokens_from(s, o + 9));
    assert(tokens_from(s, o + 5) == seq![a_let] + tokens_from(s, o + 8));
    assert(tokens_from(s, o + 4) == tokens_from(s, o + 5));
    assert(tokens_from(s, o + 1) == seq![a_pub] + tokens_from(s, o + 4));
    assert(tokens_from(s, o) == seq![Token::OpenParen] + tokens_from(s, o + 1));
    assert(tokens_from(s, o) =~= single_export_tokens(o, l) + after);
    assert(s.subrange(o + 1, o + 4) =~= seq!['p', 'u', 'b']);
    assert(s.subrange(o + 5, o + 8) =~= seq!['l', 'e', 't']);
    assert(s.subrange(o + 9, o + 9 + l) =~= name);
}

/// A form `(pub let <name> {} 1)` at the top exports its name, and the tokens
/// after it start again at the top.
proof fn lemma_single_export_exports(s: Seq<char>, toks: Seq<Token>, i: int, o: int, name: Seq<char>)
    requires
        is_name(name),
        0 <= o,
        0 <= i,
        i + 8 <= toks.len(),
        o + name.len() + 15 <= s.len() <= usize::MAX,
        toks.subrange(i, i + 8) == single_export_tokens(o, name.len() as int),
        s.subrange(o + 1, o + 4) == seq!['p', 'u', 'b'],
        s.subrange(o + 5, o + 8) == seq!['l', 'e', 't'],
        s.subrange(o + 9, o + 9 + name.len()) == name,
    ensures
        exports_from(s, toks, i, 0) == seq![name] + exports_from(s, toks, i + 8, 0),
{
    let l = name.len() as int;
    let ft = single_export_tokens(o, l);
    assert forall|j: int| 0 <= j < 8 implies toks[i + j] == #[trigger] ft[j] by {
        assert(toks.subrange(i, i + 8)[j] == toks[i + j]);
    }
    assert(toks[i] == ft[0] && toks[i + 1] == ft[1] && toks[i + 2] == ft[2] && toks[i + 3] == ft[3]);
    assert(toks[i + 4] == ft[4] && toks[i + 5] == ft[5] && toks[i + 6] == ft[6] && toks[i + 7] == ft[7]);
    assert(export_at(s, toks, i) == Some(name));
    let tail = exports_from(s, toks, i + 8, 0);
    assert(exports_from(s, toks, i + 7, 1) == tail);
    assert(exports_from(s, toks, i + 6, 1) == tail);
    assert(exports_from(s, toks, i + 5, 2) == tail);
    assert(exports_from(s, toks, i + 4, 1) == tail);
    assert(exports_from(s, toks, i + 3, 1) == tail);
    assert(exports_from(s, toks, i + 2, 1) == tail);
    assert(exports_from(s, toks, i + 1, 1) == tail);
}

/// A module made of one form `(pub let <name> {} 1)` exports exactly `<name>`,
/// whole, for every non-empty name made of characters that are not white space,
/// brackets or quotes (underscores, dashes, slashes and digits included).
pub proof fn law_whole_name_exported(name: Seq<char>)
    requires
        is_name(name),
        name.len() + 15 <= usize::MAX,
    ensures
        exported(single_export_source(name)) == seq![name],
{
    let s = single_export_source(name);
    let l = name.len() as int;
    assert(s.subrange(0, l + 15) =~= s);
    lemma_single_export_tokens(s, 0, name);
    assert(tokens_from(s, l + 15) == Seq::<Token>::empty());
    let toks = tokens(s);
    assert(toks =~= single_export_tokens(0, l));
    assert(toks.subrange(0, 8) =~= single_export_tokens(0, l));
    lemma_single_export_exports(s, toks, 0, 0, name);
    assert(exports_from(s, toks, 8, 0) == Seq::<Seq<char>>::empty());
    assert(exports_from(s, toks, 0, 0) =~= seq![name]);
}

/// Two such forms, one after the other, export both names, in order.
pub proof fn law_exports_in_order(first: Seq<char>, second: Seq<char>)
    requires
        is_name(first),
        is_name(second),
        first.len() + second.len() + 31 <= usize::MAX,
    ensures
        exported(single_export_source(first) + seq!['\n'] + single_export_source(second)) == seq![
            first,
            second,
        ],
{
    let f1 = single_export_source(first);
    let f2 = single_export_source(second);
    let s = f1 + seq!['\n'] + f2;
    let l1 = first.len() as int;
    let l2 = second.len() as int;
    let o2 = l1 + 16;
    assert(s.len() == l1 + l2 + 31);
    assert(s.subrange(0, l1 + 15) =~= f1);
    assert(s.subrange(o2, o2 + l2 + 15) =~= f2);
    lemma_single_export_tokens(s, 0, first);
    lemma_single_export_tokens(s, o2, second);
    assert(s[l1 + 15] == '\n');
    assert(is_whitespace('\n'));
    assert(tokens_from(s, l1 + 15) == tokens_from(s, o2));
    assert(tokens_from(s, o2 + l2 + 15) == Seq::<Token>::empty());
    let t1 = single_export_tokens(0, l1);
    let t2 = single_export_tokens(o2, l2);
    let toks = tokens(s);
    assert(toks =~= t1 + t2);
    assert(toks.subrange(0, 8) =~= t1);
    assert(toks.subrange(8, 16) =~= t2);
    lemma_single_export_exports(s, toks, 0, 0, first);
    lemma_single_export_exports(s, toks, 8, o2, second);
    assert(exports_from(s, toks, 16, 0) == Seq::<Seq<char>>::empty());
    assert(exports_from(s, toks, 0, 0) =~= seq![first, second]);
}

/// A `pub let` form nested inside another form exports nothing: the module
/// `(let <outer> {} (pub let <name> {} 1))` exports no name.
pub proof fn law_nested_not_exported(outer: Seq<char>, name: Seq<char>)
    requires
        is_name(outer),
        is_name(name),
        outer.len() + name.len() + 25 <= usize::MAX,
    ensures
        exported(seq!['(', 'l', 'e', 't', ' '] + outer + seq![' ', '{', '}', ' '] + single_export_source(name) + seq![')'])
            == Seq::<Seq<char>>::empty(),
{
    let f = single_export_source(name);
    let s = seq!['(', 'l', 'e', 't', ' '] + outer + seq![' ', '{', '}', ' '] + f + seq![')'];
    let lo = outer.len() as int;
    let ln = name.len() as int;
    let o = lo + 9;
    assert(s.len() == o + ln + 16);
    assert(s.subrange(o, o + ln + 15) =~= f);
    lemma_single_export_tokens(s, o, name);
    assert(s[0] == '(' && s[1] == 'l' && s[2] == 'e' && s[3] == 't' && s[4] == ' ');
    assert(s[5 + lo] == ' ' && s[6 + lo] == '{' && s[7 + lo] == '}' && s[8 + lo] == ' ');
    assert(s[o + ln + 15] == ')');
    assert(is_whitespace(' '));
    lemma_atom_end_at(s, 1, 4);
    assert forall|j: int| 5 <= j < 5 + lo implies is_atom_char(#[trigger] s[j]) by {
        assert(s[j] == outer[j - 5]);
    }
    lemma_atom_end_at(s, 5, 5 + lo);
    let a_let = Token::Atom { start: 1usize, end: 4usize };
    let a_outer = Token::Atom { start: 5usize, end: (5 + lo) as usize };
    let t = single_export_tokens(o, ln);
    assert(tokens_from(s, o + ln + 16) == Seq::<Token>::empty());
    assert(tokens_from(s, o + ln + 15) == seq![Token::Close]);
    assert(tokens_from(s, 8 + lo) == tokens_from(s, o));
    assert(tokens_from(s, 7 + lo) == seq![Token::Close] + tokens_from(s, 8 + lo));
    assert(tokens_from(s, 6 + lo) == seq![Token::Open] + tokens_from(s, 7 + lo));
    assert(tokens_from(s, 5 + lo) == tokens_from(s, 6 + lo));
    assert(tokens_from(s, 5) == seq![a_outer] + tokens_from(s, 5 + lo));
    assert(tokens_from(s, 4) == tokens_from(s, 5));
    assert(tokens_from(s, 1) == seq![a_let] + tokens_from(s, 4));
    let toks = tokens(s);
    assert(toks =~= seq![Token::OpenParen, a_let, a_outer, Token::Open, Token::Close] + t + seq![Token::Close]);
    assert(s.subrange(1, 4)[0] == 'l');
    assert(!atom_is(s, toks[1], seq!['p', 'u', 'b']));
    let e = Seq::<Seq<char>>::empty();
    assert(exports_from(s, toks, 14, 0) == e);
    assert(exports_from(s, toks, 13, 1) == e);
    assert(exports_from(s, toks, 12, 2) == e);
    assert(exports_from(s, toks, 11, 2) == e);
    assert(exports_from(s, toks, 10, 3) == e);
    assert(exports_from(s, toks, 9, 2) == e);
    assert(exports_from(s, toks, 8, 2) == e);
    assert(exports_from(s, toks, 7, 2) == e);
    assert(exports_from(s, toks, 6, 2) == e);
    assert(exports_from(s, toks, 5, 1) == e);
    assert(exports_from(s, toks, 4, 2) == e);
    assert(exports_from(s, toks, 3, 1) == e);
    assert(exports_from(s, toks, 2, 1) == e);
    assert(exports_from(s, toks, 1, 1) == e);
    assert(exports_from(s, toks, 0, 0) == e);
}

/// The names each module exports, by module name.
pub struct ModuleExports {
    entries: Vec<(String, Vec<String>)>,
}

/// The map that a list of (module, exported names) entries stands for: a later
/// entry for a module replaces an earlier one.
pub open spec fn entries_map(es: Seq<(String, Vec<String>)>) -> Map<Seq<char>, Seq<Seq<char>>>
    decreases es.len(),
{
    if es.len() == 0 {
        Map::empty()
    } else {
        entries_map(es.drop_last()).insert(es.last().0@, string_views(es.last().1@))
    }
}

impl View for ModuleExports {
    type V = Map<Seq<char>, Seq<Seq<char>>>;

    closed spec fn view(&self) -> Map<Seq<char>, Seq<Seq<char>>> {
        entries_map(self.entries@)
    }
}

/// A module is in the map exactly when some entry names it; its names are
/// those of the last entry that names it.
#[verifier::spinoff_prover]
proof fn lemma_entries_map(es: Seq<(String, Vec<String>)>, key: Seq<char>)
    ensures
        entries_map(es).contains_key(key) <==> exists|j: int| 0 <= j < es.len() && (#[trigger] es[j]).0@ == key,
        forall|k: int|
            0 <= k < es.len() && (#[trigger] es[k]).0@ == key && (forall|j: int|
                k < j < es.len() ==> (#[trigger] es[j]).0@ != key) ==> entries_map(es)[key]
                == string_views(es[k].1@),
    decreases es.len(),
{
    if es.len() > 0 {
        let init = es.drop_last();
        lemma_entries_map(init, key);
        if es.last().0@ != key {
            if exists|j: int| 0 <= j < es.len() && (#[trigger] es[j]).0@ == key {
                let j = choose|j: int| 0 <= j < es.len() && (#[trigger] es[j]).0@ == key;
                assert(init[j] == es[j]);
            }
            assert forall|k: int|
                0 <= k < es.len() && (#[trigger] es[k]).0@ == key && (forall|j: int|
                    k < j < es.len() ==> (#[trigger] es[j]).0@ != key) implies entries_map(
                es,
            )[key] == string_views(es[k].1@) by {
                assert(init[k] == es[k]);
                assert forall|j: int| k < j < init.len() implies (#[trigger] init[j]).0@ != key by {
                    assert(init[j] == es[j]);
                }
            }
        }
    }
}

impl ModuleExports {
    /// No module yet.
    pub fn new() -> (m: Self)
        ensures
            m@ == Map::<Seq<char>, Seq<Seq<char>>>::empty(),
    {
        ModuleExports { entries: Vec::new() }
    }

    /// Records the names that `module` exports, replacing what was recorded for it.
    pub fn insert(&mut self, module: String, names: Vec<String>)
        ensures
            final(self)@ == old(self)@.insert(module@, string_views(names@)),
    {
        let ghost before = self.entries@;
        self.entries.push((module, names));
        assert(self.entries@.drop_last() =~= before);
    }

    /// The names that `module` exports, if it was recorded.
    pub fn get(&self, module: &str) -> (names: Option<&Vec<String>>)
        ensures
            match names {
                Some(v) => self@.contains_key(module@) && self@[module@] == string_views(v@),
                None => !self@.contains_key(module@),
            },
    {
        let key = module.to_owned();
        let mut i = self.entries.len();
        while i > 0
            invariant
                i <= self.entries@.len(),
                key@ == module@,
                forall|j: int| i <= j < self.entries@.len() ==> (#[trigger] self.entries@[j]).0@ != key@,
            decreases i,
        {
            if self.entries[i - 1].0 == key {
                proof {
                    lemma_entries_map(self.entries@, key@);
                    assert(self.entries@[i - 1].0@ == key@);
                }
                return Some(&self.entries[i - 1].1);
            }
            i = i - 1;
        }
        proof {
            lemma_entries_map(self.entries@, key@);
        }
        None
    }
}

/// The names each dependency exports, by the name the project uses for it: for
/// each (user name, package name, source), the names its source exports; a
/// later dependency with the same user name replaces an earlier one.
pub open spec fn dependency_exports(mods: Seq<(String, String, String)>) -> Map<Seq<char>, Seq<Seq<char>>>
    decreases mods.len(),
{
    if mods.len() == 0 {
        Map::empty()
    } else {
        dependency_exports(mods.drop_last()).insert(mods.last().0@, exported(mods.last().2@))
    }
}

/// Reads which names each dependency module exports, keyed by the name the
/// project uses for it.
pub fn dependency_module_exports(dependency_mods: &[(String, String, String)]) -> (exports: ModuleExports)
    ensures
        exports@ == dependency_exports(dependency_mods@),
{
    let mut exports = ModuleExports::new();
    let n = dependency_mods.len();
    let mut i: usize = 0;
    while i < n
        invariant
            n == dependency_mods@.len(),
            i <= n,
            exports@ == dependency_exports(dependency_mods@.take(i as int)),
        decreases n - i,
    {
        let user_name = dependency_mods[i].0.clone();
        let names = exported_names(dependency_mods[i].2.as_str());
        exports.insert(user_name, names);
        assert(dependency_mods@.take(i + 1).drop_last() =~= dependency_mods@.take(i as int));
        i = i + 1;
    }
    assert(dependency_mods@.take(n as int) =~= dependency_mods@);
    exports
}

/// Looking up a dependency by its user name gives the names its own source
/// exports, when no later dependency has the same user name.
pub proof fn law_dependency_lookup(mods: Seq<(String, String, String)>, i: int)
    requires
        0 <= i < mods.len(),
        forall|j: int| i < j < mods.len() ==> (#[trigger] mods[j]).0@ != mods[i].0@,
    ensures
        dependency_exports(mods).contains_key(mods[i].0@),
        dependency_exports(mods)[mods[i].0@] == exported(mods[i].2@),
    decreases mods.len(),
{
    if i < mods.len() - 1 {
        let init = mods.drop_last();
        assert(init[i] == mods[i]);
        assert forall|j: int| i < j < init.len() implies (#[trigger] init[j]).0@ != init[i].0@ by {
            assert(init[j] == mods[j]);
        }
        law_dependency_lookup(init, i);
    }
}

} // verus!
