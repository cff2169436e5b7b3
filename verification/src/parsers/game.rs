//! The game log: every line carries a time stamp in brackets and a category
//! tag, and the category decides what of the line may be published.

use crate::parsers::ip_filtering::{filter_ips, redacted};
use crate::pattern::{any_matches, matches_in, set_compiles, sources, Matcher, SetMatcher};
use crate::text::{
    chars_of, cow_chars, equals, find, first_index, is_whitespace, join, join_with,
    lemma_first_index, lemma_trailing_whitespace_bound, lemma_trimmed_whitespace, lines,
    lines_of, push_chars, push_str, split, split_on, starts_with, string_of, strip_prefix,
    trailing_whitespace, trim_bounds, trimmed, views,
};
use std::borrow::Cow;
use vstd::prelude::*;
use vstd::slice::slice_subrange;
use vstd::string::StrSliceExecFns;

verus! {

/// The placeholders, one for each reason to keep a line back, and the one
/// that replaces a word of a login line.
pub const EMPTY_LINE: &'static str = "-censored(empty_line)-";

pub const NO_TS_START: &'static str = "-censored(no_ts_start)-";

pub const NO_CATEGORY_COLON: &'static str = "-censored(no_category_colon)-";

pub const NO_TS_REGEX_MATCH: &'static str = "-censored(no_ts_regex_match)-";

pub const NO_SPACE_AFTER_TIMESTAMP: &'static str = "-censored(no_space_after_timestamp)-";

pub const GAME_COMPAT_NO_FOLLOWUP: &'static str = "-censored(game_compat_no_followup)-";

pub const IP_CID: &'static str = "-censored(ip/cid)-";

pub const INVALID_CONNECTION_DATA: &'static str = "-censored(invalid connection data)-";

pub const ADMIN_CHATTER: &'static str = "-censored(asay/apm/ahelp/notes/etc)-";

pub const PRIVATE_LOGTYPE: &'static str = "-censored(private logtype)-";

pub const WORLD_TOPIC: &'static str = "-censored(world_topic logs)-";

pub const SQL_LOGS: &'static str = "-censored(sql logs)-";

/// What stands between the brackets: a clock time, or a date and a clock
/// time with one or more groups of fractional digits.
pub const TIMESTAMP_PATTERN: &'static str =
    r"^([0-9]{2}:[0-9]{2}:[0-9]{2}|[0-9]{2,4}-[0-9]{2,4}-[0-9]{2,4} [0-9]{2}:[0-9]{2}:[0-9]{2}(\.[0-9]{1,3})+)$";

/// A line that announces a round is published as it is.
pub const ROUND_START: &'static str = " Starting up round ID ";

/// The tag after which the next word is the category.
pub const GAME_COMPAT: &'static str = "GAME-COMPAT:";

/// The prefix that a category may carry, any number of times.
pub const GAME_PREFIX: &'static str = "GAME-";

/// What an `ADMIN` line must not say: a request for help, a private
/// message, admin chat, a link, a transcript, or work on a note.
pub open spec fn admin_patterns() -> Seq<Seq<char>> {
    seq![
        r"^HELP:"@,
        r"^PM:"@,
        r"^ASAY:"@,
        r"^<a"@,
        r"^.*/\(.*\) : "@,
        r"^.*/\(.*\) added note "@,
        r"^.*/\(.*\) removed a note "@,
        r"^.*/\(.*\) has added "@,
        r"^.*/\(.*\) has edited "@,
        r#"^[^:]*/\(.*\) ".*""#@,
    ]
}

/// Whether the rest of an `ADMIN` line keeps the line from being published:
/// one of `admin_patterns` matches in it. Should the patterns not compile,
/// every such line is kept back.
pub open spec fn admin_only(remaining: Seq<char>) -> bool {
    !set_compiles(admin_patterns()) || any_matches(admin_patterns(), remaining)
}

/// `s` without `GAME-` at its start, however often it stands there.
pub open spec fn without_game_prefix(s: Seq<char>) -> Seq<char>
    decreases s.len(),
{
    if GAME_PREFIX@.len() > 0 && GAME_PREFIX@.is_prefix_of(s) {
        without_game_prefix(s.skip(GAME_PREFIX@.len() as int))
    } else {
        s
    }
}

/// A login line put together again from its words, single spaces between
/// them, with the fourth word from the end replaced.
pub open spec fn login_line(
    timestamp: Seq<char>,
    log_type: Seq<char>,
    words: Seq<Seq<char>>,
) -> Seq<char> {
    timestamp + "] "@ + log_type + " Login: "@ + join_with(
        words.update(words.len() - 4, IP_CID@),
        " "@,
    )
}

/// Why a line is kept back.
#[derive(Clone, Copy, Debug, PartialEq, Eq, Structural)]
pub enum Reason {
    EmptyLine,
    NoTsStart,
    NoCategoryColon,
    NoTsRegexMatch,
    NoSpaceAfterTimestamp,
    GameCompatNoFollowup,
    InvalidConnectionData,
    AdminChatter,
    PrivateLogtype,
    WorldTopic,
    SqlLogs,
}

impl Reason {
    /// What is published in place of the line.
    pub open spec fn placeholder(self) -> Seq<char> {
        match self {
            Reason::EmptyLine => EMPTY_LINE@,
            Reason::NoTsStart => NO_TS_START@,
            Reason::NoCategoryColon => NO_CATEGORY_COLON@,
            Reason::NoTsRegexMatch => NO_TS_REGEX_MATCH@,
            Reason::NoSpaceAfterTimestamp => NO_SPACE_AFTER_TIMESTAMP@,
            Reason::GameCompatNoFollowup => GAME_COMPAT_NO_FOLLOWUP@,
            Reason::InvalidConnectionData => INVALID_CONNECTION_DATA@,
            Reason::AdminChatter => ADMIN_CHATTER@,
            Reason::PrivateLogtype => PRIVATE_LOGTYPE@,
            Reason::WorldTopic => WORLD_TOPIC@,
            Reason::SqlLogs => SQL_LOGS@,
        }
    }

    /// What is published in place of the line.
    pub fn as_str(self) -> (r: &'static str)
        ensures
            r@ == self.placeholder(),
    {
        match self {
            Reason::EmptyLine => EMPTY_LINE,
            Reason::NoTsStart => NO_TS_START,
            Reason::NoCategoryColon => NO_CATEGORY_COLON,
            Reason::NoTsRegexMatch => NO_TS_REGEX_MATCH,
            Reason::NoSpaceAfterTimestamp => NO_SPACE_AFTER_TIMESTAMP,
            Reason::GameCompatNoFollowup => GAME_COMPAT_NO_FOLLOWUP,
            Reason::InvalidConnectionData => INVALID_CONNECTION_DATA,
            Reason::AdminChatter => ADMIN_CHATTER,
            Reason::PrivateLogtype => PRIVATE_LOGTYPE,
            Reason::WorldTopic => WORLD_TOPIC,
            Reason::SqlLogs => SQL_LOGS,
        }
    }
}

/// The categories that have a rule of their own, and all the others.
#[derive(Clone, Copy, Debug, PartialEq, Eq, Structural)]
pub enum Category {
    Access,
    Admin,
    AdminPrivate,
    Topic,
    Sql,
    Other,
}

/// The category called `name`.
pub open spec fn category_named(name: Seq<char>) -> Category {
    if name == "ACCESS"@ {
        Category::Access
    } else if name == "ADMIN"@ {
        Category::Admin
    } else if name == "ADMINPRIVATE"@ {
        Category::AdminPrivate
    } else if name == "TOPIC"@ {
        Category::Topic
    } else if name == "SQL"@ {
        Category::Sql
    } else {
        Category::Other
    }
}

/// The category called `name`.
pub fn category_of(name: &[char]) -> (c: Category)
    ensures
        c == category_named(name@),
{
    if equals(name, "ACCESS") {
        Category::Access
    } else if equals(name, "ADMIN") {
        Category::Admin
    } else if equals(name, "ADMINPRIVATE") {
        Category::AdminPrivate
    } else if equals(name, "TOPIC") {
        Category::Topic
    } else if equals(name, "SQL") {
        Category::Sql
    } else {
        Category::Other
    }
}

/// What becomes of a line, as contracts speak of it.
pub enum Outcome {
    /// The line is published without the white space at its ends.
    Passthrough,
    /// This text is published.
    Substituted(Seq<char>),
    /// A placeholder that names the reason is published.
    Censored(Reason),
}

/// What becomes of a line.
#[derive(Clone, Debug, PartialEq, Eq)]
pub enum RedactionOutcome {
    /// The line is published without the white space at its ends.
    Passthrough,
    /// This text is published.
    Substituted(String),
    /// A placeholder that names the reason is published.
    Censored(Reason),
}

impl View for RedactionOutcome {
    type V = Outcome;

    open spec fn view(&self) -> Outcome {
        match self {
            RedactionOutcome::Passthrough => Outcome::Passthrough,
            RedactionOutcome::Substituted(text) => Outcome::Substituted(text@),
            RedactionOutcome::Censored(reason) => Outcome::Censored(*reason),
        }
    }
}

/// The outcome by the rule of the category that `log_type` names, for a line
/// that begins with `timestamp` and whose words after the category are
/// `rest`. The category is `log_type` without its last character and without
/// `GAME-` in front.
///
/// An `ACCESS` line is judged by its next word. After `Login:` the fourth
/// word from the end is replaced and the line put together again; with
/// fewer than four words there is no such word, and the line is kept back.
/// After `Failed` the line is kept back. An `ADMIN` line is kept back where
/// its words, single spaces between them, are `admin_only`.
pub open spec fn rule_outcome(
    timestamp: Seq<char>,
    log_type: Seq<char>,
    rest: Seq<Seq<char>>,
) -> Outcome {
    match category_named(without_game_prefix(log_type.drop_last())) {
        Category::Access => if rest.len() > 0 && rest[0] == "Login:"@ {
            if rest.len() >= 5 {
                Outcome::Substituted(login_line(timestamp, log_type, rest.skip(1)))
            } else {
                Outcome::Censored(Reason::InvalidConnectionData)
            }
        } else if rest.len() > 0 && rest[0] == "Failed"@ {
            Outcome::Censored(Reason::InvalidConnectionData)
        } else {
            Outcome::Passthrough
        },
        Category::Admin => if admin_only(join_with(rest, " "@)) {
            Outcome::Censored(Reason::AdminChatter)
        } else {
            Outcome::Passthrough
        },
        Category::AdminPrivate => Outcome::Censored(Reason::PrivateLogtype),
        Category::Topic => Outcome::Censored(Reason::WorldTopic),
        Category::Sql => Outcome::Censored(Reason::SqlLogs),
        Category::Other => Outcome::Passthrough,
    }
}

/// The outcome for a line whose time stamp matched and which is
/// `timestamp`, a closing bracket and `contents`. The contents are a space
/// and words with single spaces between them; without the space, and so
/// without any contents, the line is kept back. The first word is the
/// category tag and ends with a colon, and after the tag `GAME-COMPAT:` the
/// next word, which may not be empty, is taken for the category.
pub open spec fn contents_outcome(timestamp: Seq<char>, contents: Seq<char>) -> Outcome {
    if contents.len() == 0 || contents.first() != ' ' {
        Outcome::Censored(Reason::NoSpaceAfterTimestamp)
    } else {
        let words = split_on(contents.skip(1), ' ');
        let tag = words[0];
        if tag.len() == 0 || tag.last() != ':' {
            Outcome::Censored(Reason::NoCategoryColon)
        } else if tag == GAME_COMPAT@ {
            if words.len() < 2 || words[1].len() == 0 {
                Outcome::Censored(Reason::GameCompatNoFollowup)
            } else {
                rule_outcome(timestamp, words[1], words.skip(2))
            }
        } else {
            rule_outcome(timestamp, tag, words.skip(1))
        }
    }
}

/// The outcome for a line that has no white space at its ends.
pub open spec fn trimmed_outcome(line: Seq<char>) -> Outcome {
    if line.len() == 0 {
        Outcome::Censored(Reason::EmptyLine)
    } else if line.first() != '[' {
        Outcome::Censored(Reason::NoTsStart)
    } else {
        let close = first_index(line, ']');
        if !(0 <= close < line.len()) {
            Outcome::Censored(Reason::NoCategoryColon)
        } else {
            let timestamp = line.take(close);
            let contents = line.skip(close + 1);
            if !matches_in(TIMESTAMP_PATTERN@, timestamp.skip(1)) {
                Outcome::Censored(Reason::NoTsRegexMatch)
            } else if ROUND_START@.is_prefix_of(contents) {
                Outcome::Passthrough
            } else {
                contents_outcome(timestamp, contents)
            }
        }
    }
}

/// The outcome for `line`.
pub open spec fn outcome_of(line: Seq<char>) -> Outcome {
    trimmed_outcome(trimmed(line))
}

/// What is published for `line` with this outcome.
pub open spec fn published(line: Seq<char>, outcome: Outcome) -> Seq<char> {
    match outcome {
        Outcome::Passthrough => trimmed(line),
        Outcome::Substituted(text) => text,
        Outcome::Censored(reason) => reason.placeholder(),
    }
}

/// What is published for `line`: the line itself without the white space at
/// its ends, the line with one word replaced, or a placeholder that names the
/// reason.
pub open spec fn classify(line: Seq<char>) -> Seq<char> {
    published(line, outcome_of(line))
}

/// The published game log: what `classify` gives for each line, each
/// followed by a line feed.
pub open spec fn game_log(lines: Seq<Seq<char>>) -> Seq<char>
    decreases lines.len(),
{
    if lines.len() == 0 {
        Seq::empty()
    } else {
        game_log(lines.drop_last()) + classify(lines.last()) + seq!['\n']
    }
}

/// A line of white space alone is published as `-censored(empty_line)-`.
pub proof fn lemma_blank_line(line: Seq<char>)
    requires
        forall|i: int| 0 <= i < line.len() ==> is_whitespace(line[i]),
    ensures
        outcome_of(line) == Outcome::Censored(Reason::EmptyLine),
        classify(line) == EMPTY_LINE@,
{
    lemma_trimmed_whitespace(line);
}

/// A line that holds more than white space and does not begin with `[` once
/// the white space at its ends is gone is published as
/// `-censored(no_ts_start)-`.
pub proof fn lemma_no_opening_bracket(line: Seq<char>)
    requires
        trimmed(line).len() > 0,
        trimmed(line).first() != '[',
    ensures
        outcome_of(line) == Outcome::Censored(Reason::NoTsStart),
        classify(line) == NO_TS_START@,
{
}

/// A line whose first character is neither white space nor `[` is
/// published as `-censored(no_ts_start)-`.
pub proof fn lemma_no_opening_bracket_at_start(line: Seq<char>)
    requires
        line.len() > 0,
        !is_whitespace(line.first()),
        line.first() != '[',
    ensures
        outcome_of(line) == Outcome::Censored(Reason::NoTsStart),
        classify(line) == NO_TS_START@,
{
    lemma_trailing_whitespace_bound(line);
    assert(line.skip(0) =~= line);
    assert(trailing_whitespace(line) < line.len()) by {
        if trailing_whitespace(line) == line.len() {
            assert(is_whitespace(line[0]));
        }
    }
    lemma_no_opening_bracket(line);
}

fn admin_pattern_list() -> (v: Vec<&'static str>)
    ensures
        sources(v@) == admin_patterns(),
{
    let mut v: Vec<&'static str> = Vec::new();
    v.push(r"^HELP:");
    v.push(r"^PM:");
    v.push(r"^ASAY:");
    v.push(r"^<a");
    v.push(r"^.*/\(.*\) : ");
    v.push(r"^.*/\(.*\) added note ");
    v.push(r"^.*/\(.*\) removed a note ");
    v.push(r"^.*/\(.*\) has added ");
    v.push(r"^.*/\(.*\) has edited ");
    v.push(r#"^[^:]*/\(.*\) ".*""#);
    assert(sources(v@) =~= admin_patterns());
    v
}

fn strip_game_prefixes<'a>(s: &'a [char]) -> (r: &'a [char])
    ensures
        r@ == without_game_prefix(s@),
{
    let mut rest = s;
    loop
        invariant
            without_game_prefix(rest@) == without_game_prefix(s@),
        decreases rest.len(),
    {
        match strip_prefix(rest, GAME_PREFIX) {
            Some(n) => {
                if n == 0 {
                    return rest;
                }
                let shorter = slice_subrange(rest, n, rest.len());
                assert(shorter@ =~= rest@.skip(n as int));
                rest = shorter;
            },
            None => {
                return rest;
            },
        }
    }
}

/// The words of `words` from index `from` on.
fn words_from(words: &Vec<Vec<char>>, from: usize) -> (r: Vec<Vec<char>>)
    requires
        from <= words.len(),
    ensures
        views(r@) == views(words@).skip(from as int),
{
    let mut r: Vec<Vec<char>> = Vec::new();
    let mut i: usize = from;
    assert(views(r@) =~= views(words@).subrange(from as int, i as int));
    while i < words.len()
        invariant
            from <= i <= words.len(),
            views(r@) == views(words@).subrange(from as int, i as int),
        decreases words.len() - i,
    {
        let mut word: Vec<char> = Vec::new();
        push_chars(&mut word, words[i].as_slice());
        let ghost before = views(r@);
        r.push(word);
        i += 1;
        assert(views(r@) =~= before.push(words@[i - 1]@));
        assert(views(r@) =~= views(words@).subrange(from as int, i as int));
    }
    assert(views(words@).subrange(from as int, i as int) =~= views(words@).skip(from as int));
    r
}

/// The compiled patterns that classifying a line needs.
pub struct LineClassifier {
    timestamp: Matcher,
    admin: SetMatcher,
}

impl LineClassifier {
    #[verifier::type_invariant]
    spec fn inv(&self) -> bool {
        &&& self.timestamp.pattern() == TIMESTAMP_PATTERN@
        &&& self.admin.patterns() == admin_patterns()
    }

    /// Compiles the patterns.
    pub fn new() -> (c: LineClassifier)
        ensures
            c.timestamp_pattern() == TIMESTAMP_PATTERN@,
            c.admin_patterns() == admin_patterns(),
    {
        let list = admin_pattern_list();
        LineClassifier { timestamp: Matcher::new(TIMESTAMP_PATTERN), admin: SetMatcher::new(&list) }
    }

    /// The pattern that what stands between the brackets is held against.
    pub closed spec fn timestamp_pattern(&self) -> Seq<char> {
        self.timestamp.pattern()
    }

    /// The patterns that the rest of an `ADMIN` line is held against.
    pub closed spec fn admin_patterns(&self) -> Seq<Seq<char>> {
        self.admin.patterns()
    }

    fn is_admin_only(&self, remaining: &Vec<char>) -> (b: bool)
        ensures
            b == admin_only(remaining@),
    {
        proof {
            use_type_invariant(self);
        }
        if !self.admin.is_compiled() {
            return true;
        }
        let text = string_of(remaining.as_slice());
        self.admin.is_match(text.as_str())
    }

    fn login(timestamp: &[char], log_type: &[char], words: &Vec<Vec<char>>, from: usize) -> (r:
        String)
        requires
            from + 4 <= words.len(),
        ensures
            r@ == login_line(timestamp@, log_type@, views(words@).skip(from as int)),
    {
        let mut login = words_from(words, from);
        let ghost before = views(login@);
        assert(login.len() == before.len());
        let place = login.len() - 4;
        login.set(place, chars_of(IP_CID));
        assert(views(login@) =~= before.update(place as int, IP_CID@));
        let mut r: Vec<char> = Vec::new();
        push_chars(&mut r, timestamp);
        push_str(&mut r, "] ");
        push_chars(&mut r, log_type);
        push_str(&mut r, " Login: ");
        let joined = join(&login, " ");
        push_chars(&mut r, joined.as_slice());
        string_of(r.as_slice())
    }

    fn rule(&self, timestamp: &[char], words: &Vec<Vec<char>>, at: usize) -> (r: RedactionOutcome)
        requires
            at < words.len(),
            words@[at as int]@.len() > 0,
        ensures
            r@ == rule_outcome(timestamp@, words@[at as int]@, views(words@).skip(at + 1)),
    {
        let log_type = words[at].as_slice();
        let ghost rest = views(words@).skip(at + 1);
        let stem = slice_subrange(log_type, 0, log_type.len() - 1);
        assert(stem@ =~= log_type@.drop_last());
        proof {
            if rest.len() > 0 {
                assert(rest[0] == words@[at + 1]@);
            }
        }
        match category_of(strip_game_prefixes(stem)) {
            Category::Access => {
                if at + 1 < words.len() && equals(words[at + 1].as_slice(), "Login:") {
                    if words.len() - at - 1 >= 5 {
                        assert(views(words@).skip(at + 2) =~= rest.skip(1));
                        RedactionOutcome::Substituted(
                            Self::login(timestamp, log_type, words, at + 2),
                        )
                    } else {
                        RedactionOutcome::Censored(Reason::InvalidConnectionData)
                    }
                } else if at + 1 < words.len() && equals(words[at + 1].as_slice(), "Failed") {
                    RedactionOutcome::Censored(Reason::InvalidConnectionData)
                } else {
                    RedactionOutcome::Passthrough
                }
            },
            Category::Admin => {
                let others = words_from(words, at + 1);
                let remaining = join(&others, " ");
                if self.is_admin_only(&remaining) {
                    RedactionOutcome::Censored(Reason::AdminChatter)
                } else {
                    RedactionOutcome::Passthrough
                }
            },
            Category::AdminPrivate => RedactionOutcome::Censored(Reason::PrivateLogtype),
            Category::Topic => RedactionOutcome::Censored(Reason::WorldTopic),
            Category::Sql => RedactionOutcome::Censored(Reason::SqlLogs),
            Category::Other => RedactionOutcome::Passthrough,
        }
    }

    fn contents(&self, timestamp: &[char], contents: &[char]) -> (r: RedactionOutcome)
        ensures
            r@ == contents_outcome(timestamp@, contents@),
    {
        if contents.len() == 0 || contents[0] != ' ' {
            return RedactionOutcome::Censored(Reason::NoSpaceAfterTimestamp);
        }
        let after = slice_subrange(contents, 1, contents.len());
        assert(after@ =~= contents@.skip(1));
        let words = split(after, ' ');
        let tag = words[0].as_slice();
        assert(tag@ == views(words@)[0]);
        if tag.len() == 0 || tag[tag.len() - 1] != ':' {
            return RedactionOutcome::Censored(Reason::NoCategoryColon);
        }
        if equals(tag, GAME_COMPAT) {
            proof {
                if words.len() >= 2 {
                    assert(views(words@)[1] == words@[1]@);
                }
            }
            if words.len() < 2 || words[1].len() == 0 {
                return RedactionOutcome::Censored(Reason::GameCompatNoFollowup);
            }
            self.rule(timestamp, &words, 1)
        } else {
            self.rule(timestamp, &words, 0)
        }
    }

    /// The outcome for a line that has no white space at its ends.
    pub fn trimmed_outcome(&self, line: &[char]) -> (r: RedactionOutcome)
        ensures
            r@ == trimmed_outcome(line@),
    {
        proof {
            use_type_invariant(self);
        }
        if line.len() == 0 {
            return RedactionOutcome::Censored(Reason::EmptyLine);
        }
        if line[0] != '[' {
            return RedactionOutcome::Censored(Reason::NoTsStart);
        }
        let close = find(line, ']');
        proof {
            lemma_first_index(line@, ']');
        }
        if close >= line.len() {
            return RedactionOutcome::Censored(Reason::NoCategoryColon);
        }
        let timestamp = slice_subrange(line, 0, close);
        let contents = slice_subrange(line, close + 1, line.len());
        assert(timestamp@ =~= line@.take(close as int));
        assert(contents@ =~= line@.skip(close + 1));
        let stamp = slice_subrange(timestamp, 1, close);
        assert(stamp@ =~= timestamp@.skip(1));
        let stamp_text = string_of(stamp);
        if !self.timestamp.is_match(stamp_text.as_str()) {
            return RedactionOutcome::Censored(Reason::NoTsRegexMatch);
        }
        if starts_with(contents, ROUND_START) {
            return RedactionOutcome::Passthrough;
        }
        self.contents(timestamp, contents)
    }

    /// What is published for `line`.
    pub fn classify<'a>(&self, line: &'a str) -> (r: Cow<'a, str>)
        ensures
            r@ == classify(line@),
    {
        let chars = chars_of(line);
        let (from, to) = trim_bounds(chars.as_slice());
        match self.trimmed_outcome(slice_subrange(chars.as_slice(), from, to)) {
            RedactionOutcome::Passthrough => Cow::Borrowed(line.substring_char(from, to)),
            RedactionOutcome::Substituted(text) => Cow::Owned(text),
            RedactionOutcome::Censored(reason) => Cow::Borrowed(reason.as_str()),
        }
    }

    /// Appends to `out` what is published for `line`.
    pub fn push_classified(&self, out: &mut Vec<char>, line: &[char])
        ensures
            final(out)@ == old(out)@ + classify(line@),
    {
        let (from, to) = trim_bounds(line);
        let kept = slice_subrange(line, from, to);
        match self.trimmed_outcome(kept) {
            RedactionOutcome::Passthrough => push_chars(out, kept),
            RedactionOutcome::Substituted(text) => push_str(out, text.as_str()),
            RedactionOutcome::Censored(reason) => push_str(out, reason.as_str()),
        }
    }
}

/// What is published for one line of the game log.
pub fn parse_line<'a>(line: &'a str) -> (r: Cow<'a, str>)
    ensures
        r@ == classify(line@),
{
    LineClassifier::new().classify(line)
}

/// The published game log: addresses replaced, then every line classified
/// and followed by a line feed.
pub fn process_game_log(contents: String) -> (r: String)
    ensures
        r@ == game_log(lines_of(redacted(contents@))),
{
    let filtered = filter_ips(contents.as_str());
    let chars = cow_chars(&filtered);
    let all = lines(chars.as_slice());
    let classifier = LineClassifier::new();
    let mut out: Vec<char> = Vec::new();
    let mut i: usize = 0;
    assert(views(all@).take(0) =~= Seq::empty());
    while i < all.len()
        invariant
            i <= all.len(),
            out@ == game_log(views(all@).take(i as int)),
        decreases all.len() - i,
    {
        classifier.push_classified(&mut out, all[i].as_slice());
        out.push('\n');
        proof {
            let done = views(all@).take(i + 1);
            assert(done.drop_last() =~= views(all@).take(i as int));
            assert(done.last() == all@[i as int]@);
            assert(out@ =~= game_log(done.drop_last()) + classify(done.last()) + seq!['\n']);
        }
        i += 1;
    }
    assert(views(all@).take(i as int) =~= views(all@));
    string_of(out.as_slice())
}

} // verus!
