//! The wire-level text command grammar.
//!
//! A frame's text is first trimmed of surrounding whitespace. A
//! trimmed message whose first character is `/` is a command: the
//! text up to the first space is the command token, the rest of the
//! line (verbatim) is its single argument. Everything else is a chat
//! message. `spec_trim`, `head_of` and `arg_of` state that grammar
//! mathematically; `trim`, `split_command` and `parse_command` are the
//! executable parsers proved against it.

use vstd::prelude::*;

verus! {

/// Whitespace for the purposes of trimming.
pub open spec fn is_space(c: char) -> bool {
    c == ' ' || c == '\t' || c == '\r' || c == '\n'
}

/// `s` without leading whitespace.
pub open spec fn trim_front(s: Seq<char>) -> Seq<char>
    decreases s.len(),
{
    if s.len() > 0 && is_space(s[0]) {
        trim_front(s.drop_first())
    } else {
        s
    }
}

/// `s` without trailing whitespace.
pub open spec fn trim_back(s: Seq<char>) -> Seq<char>
    decreases s.len(),
{
    if s.len() > 0 && is_space(s.last()) {
        trim_back(s.drop_last())
    } else {
        s
    }
}

/// `s` without leading and trailing whitespace.
pub open spec fn spec_trim(s: Seq<char>) -> Seq<char> {
    trim_back(trim_front(s))
}

/// The command token: the text up to (excluding) the first space.
pub open spec fn head_of(s: Seq<char>) -> Seq<char>
    decreases s.len(),
{
    if s.len() == 0 {
        Seq::empty()
    } else if s[0] == ' ' {
        Seq::empty()
    } else {
        seq![s[0]] + head_of(s.drop_first())
    }
}

/// The command argument: the rest of the line after the first space,
/// verbatim; `None` if the text holds no space.
pub open spec fn arg_of(s: Seq<char>) -> Option<Seq<char>>
    decreases s.len(),
{
    if s.len() == 0 {
        None
    } else if s[0] == ' ' {
        Some(s.drop_first())
    } else {
        arg_of(s.drop_first())
    }
}

/// If the first `i` characters are whitespace and the character at `i`
/// (if any) is not, trimming the front of `s` drops exactly those `i`.
proof fn lemma_trim_front_skip(s: Seq<char>, i: int)
    requires
        0 <= i <= s.len(),
        forall|x: int| 0 <= x < i ==> is_space(#[trigger] s[x]),
        i == s.len() || !is_space(s[i]),
    ensures
        trim_front(s) == s.skip(i),
    decreases i,
{
    if i == 0 {
        assert(s.skip(0) =~= s);
    } else {
        assert(is_space(s[0]));
        let t = s.drop_first();
        assert(t =~= s.skip(1));
        lemma_trim_front_skip(t, i - 1);
        assert(t.skip(i - 1) =~= s.skip(i));
    }
}

/// If every character from `m` on is whitespace and the character
/// before `m` (if any) is not, trimming the back of `s` keeps exactly
/// the first `m`.
proof fn lemma_trim_back_take(s: Seq<char>, m: int)
    requires
        0 <= m <= s.len(),
        forall|x: int| m <= x < s.len() ==> is_space(#[trigger] s[x]),
        m == 0 || !is_space(s[m - 1]),
    ensures
        trim_back(s) == s.take(m),
    decreases s.len(),
{
    if m == s.len() {
        if s.len() > 0 {
            assert(!is_space(s.last()));
        }
        assert(s.take(m) =~= s);
    } else {
        assert(is_space(s.last()));
        let t = s.drop_last();
        lemma_trim_back_take(t, m);
        assert(t.take(m) =~= s.take(m));
    }
}

/// If the first `k` characters are no spaces and the character at `k`
/// (if any) is one, the head is the first `k` characters and the
/// argument is everything after position `k`.
proof fn lemma_split_at_space(s: Seq<char>, k: int)
    requires
        0 <= k <= s.len(),
        forall|x: int| 0 <= x < k ==> #[trigger] s[x] != ' ',
        k == s.len() || s[k] == ' ',
    ensures
        head_of(s) == s.take(k),
        arg_of(s) == (if k < s.len() {
            Some(s.skip(k + 1))
        } else {
            Option::<Seq<char>>::None
        }),
    decreases k,
{
    if k == 0 {
        assert(s.take(0) =~= Seq::<char>::empty());
        if s.len() > 0 {
            assert(s[0] == ' ');
            assert(s.drop_first() =~= s.skip(1));
        }
    } else {
        assert(s[0] != ' ');
        let t = s.drop_first();
        assert(t =~= s.skip(1));
        lemma_split_at_space(t, k - 1);
        assert(seq![s[0]] + t.take(k - 1) =~= s.take(k));
        if k < s.len() {
            assert(t.skip(k - 1 + 1) =~= s.skip(k + 1));
        }
    }
}

/// Trims surrounding whitespace.
pub fn trim(s: &str) -> (r: &str)
    ensures
        r@ == spec_trim(s@),
{
    let n = s.unicode_len();
    let mut i: usize = 0;
    while i < n && is_space_char(s.get_char(i))
        invariant
            n == s@.len(),
            0 <= i <= n,
            forall|x: int| 0 <= x < i ==> is_space(#[trigger] s@[x]),
        decreases n - i,
    {
        i += 1;
    }
    let mut j: usize = n;
    while j > i && is_space_char(s.get_char(j - 1))
        invariant
            n == s@.len(),
            0 <= i <= j <= n,
            forall|x: int| j <= x < n ==> is_space(#[trigger] s@[x]),
        decreases j,
    {
        j -= 1;
    }
    let r = s.substring_char(i, j);
    proof {
        lemma_trim_front_skip(s@, i as int);
        let t = s@.skip(i as int);
        lemma_trim_back_take(t, j - i as int);
        assert(t.take(j - i as int) =~= s@.subrange(i as int, j as int));
    }
    r
}

/// Whether `c` counts as whitespace.
fn is_space_char(c: char) -> (r: bool)
    ensures
        r == is_space(c),
{
    c == ' ' || c == '\t' || c == '\r' || c == '\n'
}

/// Splits a message into the command token and the optional rest of
/// the line after the first space.
pub fn split_command<'a>(m: &'a str) -> (r: (&'a str, Option<&'a str>))
    ensures
        r.0@ == head_of(m@),
        match r.1 {
            Some(a) => arg_of(m@) == Some(a@),
            None => arg_of(m@) is None,
        },
{
    let n = m.unicode_len();
    let mut k: usize = 0;
    while k < n && m.get_char(k) != ' '
        invariant
            n == m@.len(),
            0 <= k <= n,
            forall|x: int| 0 <= x < k ==> #[trigger] m@[x] != ' ',
        decreases n - k,
    {
        k += 1;
    }
    proof {
        lemma_split_at_space(m@, k as int);
    }
    let head = m.substring_char(0, k);
    proof {
        assert(m@.subrange(0, k as int) =~= m@.take(k as int));
    }
    if k < n {
        let arg = m.substring_char(k + 1, n);
        proof {
            assert(m@.subrange(k + 1 as int, n as int) =~= m@.skip(k + 1));
        }
        (head, Some(arg))
    } else {
        (head, None)
    }
}

/// A parsed client command.
pub enum Command {
    /// `/list`: ask for the room directory.
    List,
    /// `/join <room>`: move to the given room.
    Join(String),
    /// `/join` without an argument.
    MissingRoomArg,
    /// `/name <display-name>`: set the display name.
    Name(String),
    /// `/name` without an argument.
    MissingNameArg,
    /// Any other `/...` text; holds the full message.
    Unknown(String),
}

/// What `parse_command` must return for the message `m`.
pub open spec fn parses_to(m: Seq<char>, c: Command) -> bool {
    let h = head_of(m);
    if h == "/list"@ {
        c is List
    } else if h == "/join"@ {
        match arg_of(m) {
            Some(a) => c matches Command::Join(room) && room@ == a,
            None => c is MissingRoomArg,
        }
    } else if h == "/name"@ {
        match arg_of(m) {
            Some(a) => c matches Command::Name(v) && v@ == a,
            None => c is MissingNameArg,
        }
    } else {
        c matches Command::Unknown(t) && t@ == m
    }
}

/// Parses a trimmed message that starts with the command marker.
pub fn parse_command(m: &str) -> (c: Command)
    ensures
        parses_to(m@, c),
{
    let (head, arg) = split_command(m);
    let head_s: String = head.to_owned();
    if head_s == String::from_str("/list") {
        Command::List
    } else if head_s == String::from_str("/join") {
        match arg {
            Some(a) => Command::Join(a.to_owned()),
            None => Command::MissingRoomArg,
        }
    } else if head_s == String::from_str("/name") {
        match arg {
            Some(a) => Command::Name(a.to_owned()),
            None => Command::MissingNameArg,
        }
    } else {
        Command::Unknown(m.to_owned())
    }
}

} // verus!
