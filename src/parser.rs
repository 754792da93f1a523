//! Front end of a minimal assignment language: statements separated by
//! `;`, newlines or comments, each an integer, a string in double quotes, a
//! variable or an assignment `name = expression`. Every node records the
//! line and column (in bytes, both from 1) where it starts.
use vstd::prelude::*;

verus! {

#[derive(Debug, Clone, Copy, PartialEq, Eq)]
pub struct Location {
    pub line: u32,
    pub column: usize,
}

impl Location {
    pub fn new(line: u32, column: usize) -> (r: Location)
        ensures
            r.line == line,
            r.column == column,
    {
        Location { line, column }
    }
}

#[derive(Debug, PartialEq, Eq)]
pub enum NodeType {
    Integer(i64),
    String(String),
    Variable(String),
    Assignment(String, Box<Node>),
}

#[derive(Debug, PartialEq, Eq)]
pub struct Node {
    pub node_type: NodeType,
    pub location: Location,
}

impl Node {
    pub fn new(node_type: NodeType, pos: (u32, usize)) -> (r: Node)
        ensures
            r.node_type == node_type,
            r.location.line == pos.0,
            r.location.column == pos.1,
    {
        Node { node_type, location: Location::new(pos.0, pos.1) }
    }
}

/// A node as the grammar describes it.
pub enum SyntaxKind {
    Integer(int),
    Str(Seq<char>),
    Variable(Seq<char>),
    Assignment(Seq<char>, Box<Syntax>),
}

pub struct Syntax {
    pub kind: SyntaxKind,
    pub line: int,
    pub column: int,
}

pub open spec fn node_view(n: Node) -> Syntax
    decreases n,
{
    Syntax {
        kind: match n.node_type {
            NodeType::Integer(v) => SyntaxKind::Integer(v as int),
            NodeType::String(s) => SyntaxKind::Str(s@),
            NodeType::Variable(s) => SyntaxKind::Variable(s@),
            NodeType::Assignment(s, e) => SyntaxKind::Assignment(s@, Box::new(node_view(*e))),
        },
        line: n.location.line as int,
        column: n.location.column as int,
    }
}

/// Every integer in the tree fits in an `i64`.
pub open spec fn fits(e: Syntax) -> bool
    decreases e,
{
    match e.kind {
        SyntaxKind::Integer(v) => v <= i64::MAX,
        SyntaxKind::Assignment(_, inner) => fits(*inner),
        _ => true,
    }
}

pub enum CharClass {
    Digit,
    Alnum,
    Multispace,
    Space,
    NotNewline,
    NotQuote,
}

pub open spec fn in_class(k: CharClass, c: char) -> bool {
    match k {
        CharClass::Digit => '0' <= c <= '9',
        CharClass::Alnum => '0' <= c <= '9' || 'a' <= c <= 'z' || 'A' <= c <= 'Z',
        CharClass::Multispace => c == ' ' || c == '\t' || c == '\r' || c == '\n',
        CharClass::Space => c == ' ' || c == '\t',
        CharClass::NotNewline => c != '\n',
        CharClass::NotQuote => c != '"',
    }
}

/// The first position at or after `p` whose character is not in `k`.
pub open spec fn scan(s: Seq<char>, p: int, k: CharClass) -> int
    decreases s.len() - p,
{
    if p < 0 || p >= s.len() || !in_class(k, s[p]) {
        p
    } else {
        scan(s, p + 1, k)
    }
}

/// Where a comment starting at `p` ends, if one starts there.
pub open spec fn comment_end(s: Seq<char>, p: int) -> Option<int> {
    if 0 <= p < s.len() && s[p] == '#' {
        Some(scan(s, p + 1, CharClass::NotNewline))
    } else {
        None
    }
}

/// Skips one comment, or else a run of white space.
pub open spec fn ignore_end(s: Seq<char>, p: int) -> int {
    match comment_end(s, p) {
        Some(q) => q,
        None => scan(s, p, CharClass::Multispace),
    }
}

/// The number of bytes that `c` takes in UTF-8.
pub open spec fn utf8_len(c: char) -> int {
    if (c as u32) < 0x80 {
        1
    } else if (c as u32) < 0x800 {
        2
    } else if (c as u32) < 0x10000 {
        3
    } else {
        4
    }
}

/// The line and the byte column, both from 1, of position `p`.
pub open spec fn location_of(s: Seq<char>, p: int) -> (int, int)
    decreases p,
{
    if p <= 0 {
        (1, 1)
    } else {
        let prev = location_of(s, p - 1);
        if s[p - 1] == '\n' {
            (prev.0 + 1, 1)
        } else {
            (prev.0, prev.1 + utf8_len(s[p - 1]))
        }
    }
}

/// The value of a run of decimal digits.
pub open spec fn digits_value(d: Seq<char>) -> int
    decreases d.len(),
{
    if d.len() == 0 {
        0
    } else {
        digits_value(d.drop_last()) * 10 + (d.last() as int - '0' as int)
    }
}

pub open spec fn at(s: Seq<char>, p: int, k: SyntaxKind) -> Syntax {
    Syntax { kind: k, line: location_of(s, p).0, column: location_of(s, p).1 }
}

/// The expression starting at `p`, and where it ends: the first of an
/// assignment, a string, an integer and a variable that matches.
pub open spec fn expression(s: Seq<char>, p: int) -> Option<(Syntax, int)>
    decreases s.len() - p,
{
    let q = scan(s, p, CharClass::Alnum);
    let r = ignore_end(s, q);
    let t = ignore_end(s, r + 1);
    let assignment = if p < q && 0 <= r < s.len() && s[r] == '=' && p < t <= s.len() {
        match expression(s, t) {
            Some((e, u)) => Some(
                (at(s, p, SyntaxKind::Assignment(s.subrange(p, q), Box::new(e))), u),
            ),
            None => None,
        }
    } else {
        None
    };
    let close = scan(s, p + 1, CharClass::NotQuote);
    let d = scan(s, p, CharClass::Digit);
    if assignment is Some {
        assignment
    } else if 0 <= p < s.len() && s[p] == '"' && close < s.len() {
        Some((at(s, p, SyntaxKind::Str(s.subrange(p + 1, close))), close + 1))
    } else if p < d {
        Some((at(s, p, SyntaxKind::Integer(digits_value(s.subrange(p, d)))), d))
    } else if p < q {
        Some((at(s, p, SyntaxKind::Variable(s.subrange(p, q))), q))
    } else {
        None
    }
}

/// A statement: leading comment or white space, an expression, trailing
/// blanks.
pub open spec fn statement(s: Seq<char>, p: int) -> Option<(Syntax, int)> {
    match expression(s, ignore_end(s, p)) {
        Some((e, q)) => Some((e, scan(s, q, CharClass::Space))),
        None => None,
    }
}

/// A separator: `;`, a newline or a comment.
pub open spec fn separator(s: Seq<char>, p: int) -> Option<int> {
    if 0 <= p < s.len() && (s[p] == ';' || s[p] == '\n') {
        Some(p + 1)
    } else {
        comment_end(s, p)
    }
}

/// The statements after the one that ended at `p`: each needs a separator
/// before it; the list ends at the first place where either is missing.
pub open spec fn statements_after(s: Seq<char>, p: int) -> Seq<Syntax>
    decreases s.len() - p,
{
    match separator(s, p) {
        Some(q) => match statement(s, q) {
            Some((e, r)) => if p < r <= s.len() {
                seq![e] + statements_after(s, r)
            } else {
                seq![e]
            },
            None => Seq::empty(),
        },
        None => Seq::empty(),
    }
}

/// The statements of a program.
pub open spec fn program(s: Seq<char>) -> Seq<Syntax> {
    match statement(s, ignore_end(s, 0)) {
        Some((e, r)) => seq![e] + statements_after(s, r),
        None => Seq::empty(),
    }
}

/// Inputs longer than this are refused: locations could not be counted.
pub const MAX_INPUT: usize = 0x3fff_ffff;

fn chars_of(s: &str) -> (r: Vec<char>)
    ensures
        r@ == s@,
{
    let n = s.unicode_len();
    let mut r: Vec<char> = Vec::new();
    let mut i: usize = 0;
    while i < n
        invariant
            n == s@.len(),
            i <= n,
            r@ == s@.subrange(0, i as int),
        decreases n - i,
    {
        r.push(s.get_char(i));
        assert(r@ =~= s@.subrange(0, i + 1));
        i = i + 1;
    }
    assert(r@ =~= s@);
    r
}

fn in_class_exec(k: &CharClass, c: char) -> (r: bool)
    ensures
        r == in_class(*k, c),
{
    match k {
        CharClass::Digit => '0' <= c && c <= '9',
        CharClass::Alnum => ('0' <= c && c <= '9') || ('a' <= c && c <= 'z') || ('A' <= c && c <= 'Z'),
        CharClass::Multispace => c == ' ' || c == '\t' || c == '\r' || c == '\n',
        CharClass::Space => c == ' ' || c == '\t',
        CharClass::NotNewline => c != '\n',
        CharClass::NotQuote => c != '"',
    }
}

fn scan_exec(s: &Vec<char>, p: usize, k: CharClass) -> (r: usize)
    requires
        p <= s.len(),
    ensures
        r as int == scan(s@, p as int, k),
        p <= r <= s.len(),
{
    let mut i = p;
    while i < s.len() && in_class_exec(&k, s[i])
        invariant
            p <= i <= s.len(),
            scan(s@, p as int, k) == scan(s@, i as int, k),
        decreases s.len() - i,
    {
        i = i + 1;
    }
    i
}

fn comment_end_exec(s: &Vec<char>, p: usize) -> (r: Option<usize>)
    requires
        p <= s.len(),
    ensures
        match r {
            Some(q) => comment_end(s@, p as int) == Some(q as int) && p < q <= s.len(),
            None => comment_end(s@, p as int) is None,
        },
{
    if p < s.len() && s[p] == '#' {
        Some(scan_exec(s, p + 1, CharClass::NotNewline))
    } else {
        None
    }
}

fn ignore_end_exec(s: &Vec<char>, p: usize) -> (r: usize)
    requires
        p <= s.len(),
    ensures
        r as int == ignore_end(s@, p as int),
        p <= r <= s.len(),
{
    match comment_end_exec(s, p) {
        Some(q) => q,
        None => scan_exec(s, p, CharClass::Multispace),
    }
}

fn utf8_len_exec(c: char) -> (r: usize)
    ensures
        r as int == utf8_len(c),
        1 <= r <= 4,
{
    if (c as u32) < 0x80 {
        1
    } else if (c as u32) < 0x800 {
        2
    } else if (c as u32) < 0x10000 {
        3
    } else {
        4
    }
}

fn location_exec(s: &Vec<char>, p: usize) -> (r: Location)
    requires
        p <= s.len() <= MAX_INPUT,
    ensures
        (r.line as int, r.column as int) == location_of(s@, p as int),
{
    let mut line: u32 = 1;
    let mut column: usize = 1;
    let mut i: usize = 0;
    while i < p
        invariant
            p <= s.len() <= MAX_INPUT,
            i <= p,
            (line as int, column as int) == location_of(s@, i as int),
            line <= i + 1,
            column <= 4 * i + 1,
        decreases p - i,
    {
        if s[i] == '\n' {
            line = line + 1;
            column = 1;
        } else {
            column = column + utf8_len_exec(s[i]);
        }
        i = i + 1;
    }
    Location::new(line, column)
}

fn string_of(src: &str, from: usize, to: usize) -> (r: String)
    requires
        from <= to <= src@.len(),
    ensures
        r@ == src@.subrange(from as int, to as int),
{
    src.substring_char(from, to).to_string()
}

/// The value of the digits in `from..to`, or `None` where it exceeds
/// `i64::MAX`.
fn digits_exec(s: &Vec<char>, from: usize, to: usize) -> (r: Option<i64>)
    requires
        from <= to <= s.len(),
        forall|j: int| from <= j < to ==> '0' <= #[trigger] s@[j] <= '9',
    ensures
        match r {
            Some(v) => v as int == digits_value(s@.subrange(from as int, to as int)),
            None => digits_value(s@.subrange(from as int, to as int)) > i64::MAX,
        },
{
    let mut acc: Option<i64> = Some(0);
    let mut i = from;
    assert(s@.subrange(from as int, from as int) =~= Seq::<char>::empty());
    while i < to
        invariant
            from <= i <= to <= s.len(),
            forall|j: int| from <= j < to ==> '0' <= #[trigger] s@[j] <= '9',
            digits_value(s@.subrange(from as int, i as int)) >= 0,
            match acc {
                Some(v) => v as int == digits_value(s@.subrange(from as int, i as int)),
                None => digits_value(s@.subrange(from as int, i as int)) > i64::MAX,
            },
        decreases to - i,
    {
        let d = (s[i] as u32 - '0' as u32) as i64;
        assert(s@.subrange(from as int, i + 1).drop_last() =~= s@.subrange(from as int, i as int));
        acc = match acc {
            Some(v) => if v <= (i64::MAX - d) / 10 {
                Some(v * 10 + d)
            } else {
                None
            },
            None => None,
        };
        i = i + 1;
    }
    acc
}

/// The expression starting at `p`; `Err` where it holds an integer that
/// does not fit in an `i64`.
fn expression_exec(src: &str, s: &Vec<char>, p: usize) -> (r: Result<Option<(Node, usize)>, ()>)
    requires
        p <= s.len() <= MAX_INPUT,
        s@ == src@,
    ensures
        match r {
            Err(()) => expression(s@, p as int) matches Some(x) && !fits(x.0),
            Ok(None) => expression(s@, p as int) is None,
            Ok(Some(x)) => expression(s@, p as int) == Some((node_view(x.0), x.1 as int)) && fits(
                node_view(x.0),
            ) && p < x.1 <= s.len(),
        },
    decreases s.len() - p,
{
    let ghost sv = s@;
    let q = scan_exec(s, p, CharClass::Alnum);
    if p < q {
        let r = ignore_end_exec(s, q);
        if r < s.len() && s[r] == '=' {
            let t = ignore_end_exec(s, r + 1);
            if p < t {
                match expression_exec(src, s, t) {
                    Err(()) => {
                        return Err(());
                    },
                    Ok(Some((e, u))) => {
                        let name = string_of(src, p, q);
                        let loc = location_exec(s, p);
                        let n = Node { node_type: NodeType::Assignment(name, Box::new(e)), location: loc };
                        return Ok(Some((n, u)));
                    },
                    Ok(None) => {},
                }
            }
        }
    }
    if p < s.len() && s[p] == '"' {
        let close = scan_exec(s, p + 1, CharClass::NotQuote);
        if close < s.len() {
            let text = string_of(src, p + 1, close);
            let loc = location_exec(s, p);
            return Ok(Some((Node { node_type: NodeType::String(text), location: loc }, close + 1)));
        }
    }
    let d = scan_exec(s, p, CharClass::Digit);
    if p < d {
        proof {
            lemma_scan_class(sv, p as int, CharClass::Digit);
        }
        match digits_exec(s, p, d) {
            Some(v) => {
                let loc = location_exec(s, p);
                return Ok(Some((Node { node_type: NodeType::Integer(v), location: loc }, d)));
            },
            None => {
                return Err(());
            },
        }
    }
    if p < q {
        let name = string_of(src, p, q);
        let loc = location_exec(s, p);
        return Ok(Some((Node { node_type: NodeType::Variable(name), location: loc }, q)));
    }
    Ok(None)
}

/// Every character that a scan passes over is in the class.
pub proof fn lemma_scan_class(s: Seq<char>, p: int, k: CharClass)
    requires
        0 <= p <= s.len(),
    ensures
        forall|j: int| p <= j < scan(s, p, k) ==> in_class(k, #[trigger] s[j]),
    decreases s.len() - p,
{
    if p < s.len() && in_class(k, s[p]) {
        lemma_scan_class(s, p + 1, k);
    }
}

fn statement_exec(src: &str, s: &Vec<char>, p: usize) -> (r: Result<Option<(Node, usize)>, ()>)
    requires
        p <= s.len() <= MAX_INPUT,
        s@ == src@,
    ensures
        match r {
            Err(()) => statement(s@, p as int) matches Some(x) && !fits(x.0),
            Ok(None) => statement(s@, p as int) is None,
            Ok(Some(x)) => statement(s@, p as int) == Some((node_view(x.0), x.1 as int)) && fits(
                node_view(x.0),
            ) && p < x.1 <= s.len(),
        },
{
    let start = ignore_end_exec(s, p);
    match expression_exec(src, s, start) {
        Err(()) => Err(()),
        Ok(None) => Ok(None),
        Ok(Some((e, q))) => Ok(Some((e, scan_exec(s, q, CharClass::Space)))),
    }
}

fn separator_exec(s: &Vec<char>, p: usize) -> (r: Option<usize>)
    requires
        p <= s.len(),
    ensures
        match r {
            Some(q) => separator(s@, p as int) == Some(q as int) && p < q <= s.len(),
            None => separator(s@, p as int) is None,
        },
{
    if p < s.len() && (s[p] == ';' || s[p] == '\n') {
        Some(p + 1)
    } else {
        comment_end_exec(s, p)
    }
}

pub open spec fn views(nodes: Seq<Node>) -> Seq<Syntax> {
    nodes.map_values(|n: Node| node_view(n))
}

/// Parses a program into its statements, in order. Parsing stops quietly
/// at the first place where no further statement follows; the rest of the
/// input is ignored. The one error is an integer literal beyond `i64::MAX`.
pub fn parse(input: &str) -> (r: Result<Vec<Node>, String>)
    requires
        input@.len() <= MAX_INPUT,
    ensures
        r is Ok <==> forall|i: int| 0 <= i < program(input@).len() ==> fits(#[trigger] program(input@)[i]),
        r matches Ok(nodes) ==> views(nodes@) == program(input@),
{
    let s = chars_of(input);
    let ghost sv = s@;
    let first = ignore_end_exec(&s, 0);
    let mut nodes: Vec<Node> = Vec::new();
    let mut pos: usize;
    match statement_exec(input, &s, first) {
        Err(()) => {
            let ghost x = statement(sv, first as int)->Some_0;
            assert(program(sv)[0] == x.0);
            return Err("integer literal out of range".to_string());
        },
        Ok(None) => {
            assert(views(nodes@) =~= program(sv));
            return Ok(nodes);
        },
        Ok(Some((e, r))) => {
            nodes.push(e);
            pos = r;
        },
    }
    assert(views(nodes@) =~= seq![program(sv)[0]]);
    while true
        invariant
            s@ == sv,
            sv == input@,
            sv.len() <= MAX_INPUT,
            pos <= sv.len(),
            views(nodes@) + statements_after(sv, pos as int) == program(sv),
            forall|i: int| 0 <= i < nodes@.len() ==> fits(#[trigger] views(nodes@)[i]),
        ensures
            views(nodes@) == program(sv),
            forall|i: int| 0 <= i < nodes@.len() ==> fits(#[trigger] views(nodes@)[i]),
        decreases sv.len() - pos,
    {
        let ghost before = views(nodes@);
        match separator_exec(&s, pos) {
            None => {
                assert(before + statements_after(sv, pos as int) =~= before);
                break;
            },
            Some(q) => match statement_exec(input, &s, q) {
                Err(()) => {
                    let ghost bad = statements_after(sv, pos as int)[0];
                    assert(program(sv)[before.len() as int] == bad);
                    return Err("integer literal out of range".to_string());
                },
                Ok(None) => {
                    assert(before + statements_after(sv, pos as int) =~= before);
                    break;
                },
                Ok(Some((e, r))) => {
                    nodes.push(e);
                    assert(views(nodes@) =~= before.push(node_view(e)));
                    assert(before + statements_after(sv, pos as int) =~= views(nodes@)
                        + statements_after(sv, r as int));
                    pos = r;
                },
            },
        }
    }
    Ok(nodes)
}

} // verus!
