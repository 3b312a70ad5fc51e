//! Feed parsing: raw feed markup to an ordered sequence of items, newest
//! first.
//!
//! The parser walks the markup as a flat stream of events — start tags, end
//! tags, text runs, skippable comments and self-closing tags — and folds
//! them into items.  Missing fields stay absent; an input without item
//! boundaries yields an empty sequence; only structurally broken markup (an
//! unterminated tag or comment, an unknown entity) is a parse error.

use vstd::prelude::*;

use crate::scan::{find_lit_from, lit_at, lit_match};
use crate::text::{
    char_find_from, chars_eq_str, chars_of, extend_from_range, index_of_char, is_space,
    lemma_char_find_from_bounds, spec_trim, string_of, trim_chars,
};

verus! {

/// One feed item: external id (derived from the title), title, optional
/// link, optional description, optional normalized decision date.
pub struct FeedItem {
    pub stortinget_id: String,
    pub title: String,
    pub stortinget_link: Option<String>,
    pub feed_description: Option<String>,
    pub decision_date: Option<String>,
}

/// The mathematical image of one feed item.
pub struct FeedItemView {
    pub stortinget_id: Seq<char>,
    pub title: Seq<char>,
    pub stortinget_link: Option<Seq<char>>,
    pub feed_description: Option<Seq<char>>,
    pub decision_date: Option<Seq<char>>,
}

/// View of an optional string.
pub open spec fn opt_view(o: Option<String>) -> Option<Seq<char>> {
    match o {
        Some(s) => Some(s@),
        None => None,
    }
}

impl View for FeedItem {
    type V = FeedItemView;

    open spec fn view(&self) -> FeedItemView {
        FeedItemView {
            stortinget_id: self.stortinget_id@,
            title: self.title@,
            stortinget_link: opt_view(self.stortinget_link),
            feed_description: opt_view(self.feed_description),
            decision_date: opt_view(self.decision_date),
        }
    }
}

impl FeedItem {
    /// An exact copy of the item.
    pub fn duplicate(&self) -> (r: FeedItem)
        ensures
            r@ == self@,
    {
        FeedItem {
            stortinget_id: self.stortinget_id.clone(),
            title: self.title.clone(),
            stortinget_link: match &self.stortinget_link {
                Some(s) => Some(s.clone()),
                None => None,
            },
            feed_description: match &self.feed_description {
                Some(s) => Some(s.clone()),
                None => None,
            },
            decision_date: match &self.decision_date {
                Some(s) => Some(s.clone()),
                None => None,
            },
        }
    }
}

/// Feed markup that cannot be walked as a stream of tags and text.
#[derive(Clone, Copy, Debug, PartialEq, Eq, Structural)]
pub struct ParseError;

/// A date value normalized to its `YYYY-MM-DD` prefix: everything before
/// the first time separator, kept only when at least ten characters long.
pub open spec fn spec_parse_date(s: Seq<char>) -> Option<Seq<char>> {
    if char_find_from(s, 0, 'T') >= 10 {
        Some(s.subrange(0, 10))
    } else {
        None
    }
}

/// The `YYYY-MM-DD` prefix of a date value, or `None` when the part before
/// the time separator is shorter than ten characters.
pub fn parse_date(date_str: &str) -> (r: Option<String>)
    ensures
        match r {
            Some(d) => spec_parse_date(date_str@) == Some(d@),
            None => spec_parse_date(date_str@) is None,
        },
{
    let cs = chars_of(date_str);
    let t = index_of_char(cs.as_slice(), 0, 'T');
    if t >= 10 {
        let mut d: Vec<char> = Vec::new();
        extend_from_range(&mut d, cs.as_slice(), 0, 10);
        proof {
            assert(d@ =~= date_str@.subrange(0, 10));
        }
        Some(string_of(d.as_slice()))
    } else {
        None
    }
}

/// The ampersand entity.
pub open spec fn ent_amp() -> Seq<char> {
    seq!['&', 'a', 'm', 'p', ';']
}

/// The less-than entity.
pub open spec fn ent_lt() -> Seq<char> {
    seq!['&', 'l', 't', ';']
}

/// The greater-than entity.
pub open spec fn ent_gt() -> Seq<char> {
    seq!['&', 'g', 't', ';']
}

/// The double-quote entity.
pub open spec fn ent_quot() -> Seq<char> {
    seq!['&', 'q', 'u', 'o', 't', ';']
}

/// The apostrophe entity.
pub open spec fn ent_apos() -> Seq<char> {
    seq!['&', 'a', 'p', 'o', 's', ';']
}

/// Text with the five named entities resolved; any other use of an
/// ampersand is a parse error.
pub open spec fn unescape_from(s: Seq<char>, i: int) -> Option<Seq<char>>
    decreases s.len() - i,
    when 0 <= i <= s.len()
{
    if i >= s.len() {
        Some(Seq::empty())
    } else if s[i] == '&' {
        if lit_at(s, i, ent_amp()) {
            match unescape_from(s, i + ent_amp().len()) {
                Some(t) => Some(seq!['&'] + t),
                None => None,
            }
        } else if lit_at(s, i, ent_lt()) {
            match unescape_from(s, i + ent_lt().len()) {
                Some(t) => Some(seq!['<'] + t),
                None => None,
            }
        } else if lit_at(s, i, ent_gt()) {
            match unescape_from(s, i + ent_gt().len()) {
                Some(t) => Some(seq!['>'] + t),
                None => None,
            }
        } else if lit_at(s, i, ent_quot()) {
            match unescape_from(s, i + ent_quot().len()) {
                Some(t) => Some(seq!['"'] + t),
                None => None,
            }
        } else if lit_at(s, i, ent_apos()) {
            match unescape_from(s, i + ent_apos().len()) {
                Some(t) => Some(seq!['\''] + t),
                None => None,
            }
        } else {
            None
        }
    } else {
        match unescape_from(s, i + 1) {
            Some(t) => Some(seq![s[i]] + t),
            None => None,
        }
    }
}

fn unescape(s: &[char]) -> (r: Option<Vec<char>>)
    ensures
        match r {
            Some(v) => unescape_from(s@, 0) == Some(v@),
            None => unescape_from(s@, 0) is None,
        },
{
    let e_amp: Vec<char> = vec!['&', 'a', 'm', 'p', ';'];
    let e_lt: Vec<char> = vec!['&', 'l', 't', ';'];
    let e_gt: Vec<char> = vec!['&', 'g', 't', ';'];
    let e_quot: Vec<char> = vec!['&', 'q', 'u', 'o', 't', ';'];
    let e_apos: Vec<char> = vec!['&', 'a', 'p', 'o', 's', ';'];
    proof {
        assert(e_amp@ =~= ent_amp());
        assert(e_lt@ =~= ent_lt());
        assert(e_gt@ =~= ent_gt());
        assert(e_quot@ =~= ent_quot());
        assert(e_apos@ =~= ent_apos());
    }
    let mut acc: Vec<char> = Vec::new();
    let mut i: usize = 0;
    while i < s.len()
        invariant
            i <= s@.len(),
            e_amp@ == ent_amp(),
            e_lt@ == ent_lt(),
            e_gt@ == ent_gt(),
            e_quot@ == ent_quot(),
            e_apos@ == ent_apos(),
            unescape_from(s@, 0) == (match unescape_from(s@, i as int) {
                Some(t) => Some(acc@ + t),
                None => None::<Seq<char>>,
            }),
        decreases s@.len() - i,
    {
        let ghost prev = i as int;
        if s[i] == '&' {
            let (c, step): (char, usize) = if lit_match(s, i, e_amp.as_slice()) {
                ('&', 5)
            } else if lit_match(s, i, e_lt.as_slice()) {
                ('<', 4)
            } else if lit_match(s, i, e_gt.as_slice()) {
                ('>', 4)
            } else if lit_match(s, i, e_quot.as_slice()) {
                ('"', 6)
            } else if lit_match(s, i, e_apos.as_slice()) {
                ('\'', 6)
            } else {
                return None;
            };
            proof {
                assert(forall|t: Seq<char>|
                    acc@ + (seq![c] + t) =~= acc@.push(c) + t);
            }
            acc.push(c);
            i = i + step;
        } else {
            proof {
                assert(forall|t: Seq<char>|
                    acc@ + (seq![s@[prev]] + t) =~= acc@.push(s@[prev]) + t);
            }
            acc.push(s[i]);
            i = i + 1;
        }
    }
    proof {
        assert(acc@ + Seq::<char>::empty() =~= acc@);
    }
    Some(acc)
}

/// A character that may stand in a tag name: anything but white space and
/// the tag delimiters.
pub open spec fn is_name_char(c: char) -> bool {
    !is_space(c) && c != '>' && c != '/' && c != '<'
}

/// End of the run of tag-name characters starting at `i`.
pub open spec fn name_run_end(s: Seq<char>, i: int) -> int
    decreases s.len() - i,
    when 0 <= i <= s.len()
{
    if i < s.len() && is_name_char(s[i]) {
        name_run_end(s, i + 1)
    } else {
        i
    }
}

pub proof fn lemma_name_run_end_bounds(s: Seq<char>, i: int)
    requires
        0 <= i <= s.len(),
    ensures
        i <= name_run_end(s, i) <= s.len(),
    decreases s.len() - i,
{
    if i < s.len() && is_name_char(s[i]) {
        lemma_name_run_end_bounds(s, i + 1);
    }
}

fn skip_name_chars(s: &[char], from: usize) -> (r: usize)
    requires
        from <= s@.len(),
    ensures
        r as int == name_run_end(s@, from as int),
        from <= r <= s@.len(),
{
    let mut i = from;
    while i < s.len() && !crate::text::is_space_char(s[i]) && s[i] != '>' && s[i] != '/' && s[i]
        != '<'
        invariant
            from <= i <= s@.len(),
            name_run_end(s@, from as int) == name_run_end(s@, i as int),
        decreases s@.len() - i,
    {
        i = i + 1;
    }
    i
}

/// Opening of a comment.
pub open spec fn pat_comment_open() -> Seq<char> {
    seq!['<', '!', '-', '-']
}

/// Close of a comment.
pub open spec fn pat_comment_close() -> Seq<char> {
    seq!['-', '-', '>']
}

/// One event of the flat markup stream.
pub enum SpecEvent {
    Start(Seq<char>),
    End(Seq<char>),
    Text(Seq<char>),
    Skip,
    Eof,
    Fail,
}

/// The event starting at position `i`, with the position right after it:
/// a comment or declaration or self-closing tag is skippable, a tag without
/// its closing delimiter or an unknown entity is a failure, trimmed-empty
/// text is skippable.
pub open spec fn event_at(s: Seq<char>, i: int) -> (SpecEvent, int)
    recommends
        0 <= i <= s.len(),
{
    if i >= s.len() {
        (SpecEvent::Eof, i)
    } else if s[i] == '<' {
        if lit_at(s, i, pat_comment_open()) {
            match find_lit_from(s, i + 4, pat_comment_close()) {
                Some(j) => (SpecEvent::Skip, j + 3),
                None => (SpecEvent::Fail, s.len() as int),
            }
        } else if i + 1 < s.len() && (s[i + 1] == '!' || s[i + 1] == '?') {
            let j = char_find_from(s, i, '>');
            if j < s.len() {
                (SpecEvent::Skip, j + 1)
            } else {
                (SpecEvent::Fail, s.len() as int)
            }
        } else if i + 1 < s.len() && s[i + 1] == '/' {
            let j = char_find_from(s, i, '>');
            if j < s.len() {
                (SpecEvent::End(s.subrange(i + 2, name_run_end(s, i + 2))), j + 1)
            } else {
                (SpecEvent::Fail, s.len() as int)
            }
        } else {
            let j = char_find_from(s, i, '>');
            if j >= s.len() {
                (SpecEvent::Fail, s.len() as int)
            } else if j > i + 1 && s[j - 1] == '/' {
                (SpecEvent::Skip, j + 1)
            } else {
                (SpecEvent::Start(s.subrange(i + 1, name_run_end(s, i + 1))), j + 1)
            }
        }
    } else {
        let j = char_find_from(s, i, '<');
        match unescape_from(s.subrange(i, j), 0) {
            None => (SpecEvent::Fail, s.len() as int),
            Some(u) => {
                let t = spec_trim(u);
                if t.len() == 0 {
                    (SpecEvent::Skip, j)
                } else {
                    (SpecEvent::Text(t), j)
                }
            },
        }
    }
}

/// Every event ends inside the text, and every event except end-of-input
/// and failure advances.
pub proof fn lemma_event_at_bounds(s: Seq<char>, i: int)
    requires
        0 <= i <= s.len(),
    ensures
        ({
            let (ev, next) = event_at(s, i);
            &&& i <= next <= s.len()
            &&& !(ev is Eof) && !(ev is Fail) ==> next > i
        }),
{
    if i >= s.len() {
    } else if s[i] == '<' {
        if lit_at(s, i, pat_comment_open()) {
            if find_lit_from(s, i + 4, pat_comment_close()) is Some {
                crate::scan::lemma_find_lit_from_bounds(s, i + 4, pat_comment_close());
            }
        } else {
            lemma_char_find_from_bounds(s, i, '>');
        }
    } else {
        lemma_char_find_from_bounds(s, i, '<');
    }
}

/// One event of the markup stream, as the scanner hands it out.
pub enum RawEvent {
    Start(Vec<char>),
    End(Vec<char>),
    Text(Vec<char>),
    Skip,
    Eof,
    Fail,
}

/// The mathematical image of a scanned event.
pub open spec fn raw_event_view(e: RawEvent) -> SpecEvent {
    match e {
        RawEvent::Start(n) => SpecEvent::Start(n@),
        RawEvent::End(n) => SpecEvent::End(n@),
        RawEvent::Text(t) => SpecEvent::Text(t@),
        RawEvent::Skip => SpecEvent::Skip,
        RawEvent::Eof => SpecEvent::Eof,
        RawEvent::Fail => SpecEvent::Fail,
    }
}

fn slice_to_vec_chars(s: &[char], a: usize, b: usize) -> (r: Vec<char>)
    requires
        a <= b <= s@.len(),
    ensures
        r@ == s@.subrange(a as int, b as int),
{
    let mut r: Vec<char> = Vec::new();
    extend_from_range(&mut r, s, a, b);
    proof {
        assert(r@ =~= s@.subrange(a as int, b as int));
    }
    r
}

fn next_event(s: &[char], i: usize, c_open: &[char], c_close: &[char]) -> (r: (RawEvent, usize))
    requires
        i <= s@.len(),
        c_open@ == pat_comment_open(),
        c_close@ == pat_comment_close(),
    ensures
        (raw_event_view(r.0), r.1 as int) == event_at(s@, i as int),
        i <= r.1 <= s@.len(),
{
    let n = s.len();
    if i >= n {
        return (RawEvent::Eof, i);
    }
    if s[i] == '<' {
        if lit_match(s, i, c_open) {
            match crate::scan::search_lit(s, i + 4, c_close) {
                Some(j) => {
                    return (RawEvent::Skip, j + 3);
                },
                None => {
                    return (RawEvent::Fail, n);
                },
            }
        }
        if i + 1 < n && (s[i + 1] == '!' || s[i + 1] == '?') {
            let j = index_of_char(s, i, '>');
            if j < n {
                return (RawEvent::Skip, j + 1);
            } else {
                return (RawEvent::Fail, n);
            }
        }
        if i + 1 < n && s[i + 1] == '/' {
            let j = index_of_char(s, i, '>');
            if j < n {
                let ne = skip_name_chars(s, i + 2);
                let name = slice_to_vec_chars(s, i + 2, ne);
                return (RawEvent::End(name), j + 1);
            } else {
                return (RawEvent::Fail, n);
            }
        }
        let j = index_of_char(s, i, '>');
        if j >= n {
            return (RawEvent::Fail, n);
        }
        if j > i + 1 && s[j - 1] == '/' {
            return (RawEvent::Skip, j + 1);
        }
        let ne = skip_name_chars(s, i + 1);
        let name = slice_to_vec_chars(s, i + 1, ne);
        (RawEvent::Start(name), j + 1)
    } else {
        let j = index_of_char(s, i, '<');
        match unescape(&s[i..j]) {
            None => (RawEvent::Fail, n),
            Some(u) => {
                let t = trim_chars(u.as_slice());
                if t.len() == 0 {
                    (RawEvent::Skip, j)
                } else {
                    (RawEvent::Text(t), j)
                }
            },
        }
    }
}

/// An item with every field still absent.
pub open spec fn empty_item() -> FeedItemView {
    FeedItemView {
        stortinget_id: Seq::empty(),
        title: Seq::empty(),
        stortinget_link: None,
        feed_description: None,
        decision_date: None,
    }
}

/// The folding state: whether the walk is inside an item, whether a date
/// value is being captured, the tag the next text run belongs to, the date
/// text gathered so far, the item under construction, and the finished
/// items.
pub struct FeedState {
    pub in_item: bool,
    pub capturing_date: bool,
    pub current_tag: Seq<char>,
    pub date_text: Seq<char>,
    pub current: Option<FeedItemView>,
    pub items: Seq<FeedItemView>,
}

/// The state before any event.
pub open spec fn init_feed_state() -> FeedState {
    FeedState {
        in_item: false,
        capturing_date: false,
        current_tag: Seq::empty(),
        date_text: Seq::empty(),
        current: None,
        items: Seq::empty(),
    }
}

/// One event applied to the folding state: an `item` start opens a fresh
/// item, a `dc:date` start inside an item begins date capture, any other
/// start inside an item names the field for the next text run; text fills
/// the named field (title also sets the external id) or extends the date;
/// an `item` end files the item, a `dc:date` end normalizes the gathered
/// date; every end tag clears the field name.
pub open spec fn feed_step(st: FeedState, ev: SpecEvent) -> FeedState {
    match ev {
        SpecEvent::Start(name) => {
            if name == "item"@ {
                FeedState { in_item: true, current: Some(empty_item()), ..st }
            } else if st.in_item && name == "dc:date"@ {
                FeedState { capturing_date: true, date_text: Seq::empty(), ..st }
            } else if st.in_item {
                FeedState { current_tag: name, ..st }
            } else {
                st
            }
        },
        SpecEvent::Text(t) => {
            if st.in_item {
                if st.capturing_date {
                    FeedState { date_text: st.date_text + t, ..st }
                } else if st.current_tag == "title"@ {
                    match st.current {
                        Some(it) => FeedState {
                            current: Some(FeedItemView { title: t, stortinget_id: t, ..it }),
                            ..st
                        },
                        None => st,
                    }
                } else if st.current_tag == "link"@ {
                    match st.current {
                        Some(it) => FeedState {
                            current: Some(FeedItemView { stortinget_link: Some(t), ..it }),
                            ..st
                        },
                        None => st,
                    }
                } else if st.current_tag == "description"@ {
                    match st.current {
                        Some(it) => FeedState {
                            current: Some(FeedItemView { feed_description: Some(t), ..it }),
                            ..st
                        },
                        None => st,
                    }
                } else {
                    st
                }
            } else {
                st
            }
        },
        SpecEvent::End(name) => {
            if name == "item"@ {
                let items2 = match st.current {
                    Some(it) => st.items.push(it),
                    None => st.items,
                };
                FeedState {
                    items: items2,
                    current: None,
                    in_item: false,
                    capturing_date: false,
                    current_tag: Seq::empty(),
                    ..st
                }
            } else if st.in_item && name == "dc:date"@ {
                let cur2 = match st.current {
                    Some(it) => Some(
                        FeedItemView { decision_date: spec_parse_date(st.date_text), ..it },
                    ),
                    None => None,
                };
                FeedState {
                    current: cur2,
                    capturing_date: false,
                    current_tag: Seq::empty(),
                    ..st
                }
            } else {
                FeedState { current_tag: Seq::empty(), ..st }
            }
        },
        _ => st,
    }
}

/// The fold of the whole event stream from position `i`.
pub open spec fn feed_fold(s: Seq<char>, i: int, st: FeedState) -> Result<Seq<FeedItemView>, ()>
    decreases s.len() - i,
    when 0 <= i <= s.len()
{
    let ev = event_at(s, i).0;
    let next = event_at(s, i).1;
    match ev {
        SpecEvent::Eof => Ok(st.items),
        SpecEvent::Fail => Err(()),
        _ => {
            proof {
                lemma_event_at_bounds(s, i);
            }
            feed_fold(s, next, feed_step(st, ev))
        },
    }
}

/// The items of a feed document, in document order.
pub open spec fn spec_parse_feed(s: Seq<char>) -> Result<Seq<FeedItemView>, ()> {
    feed_fold(s, 0, init_feed_state())
}

/// View of the item under construction.
pub open spec fn opt_item_view(o: Option<FeedItem>) -> Option<FeedItemView> {
    match o {
        Some(it) => Some(it@),
        None => None,
    }
}

/// Parse feed markup into its ordered items.  Missing fields are absent,
/// an input without item boundaries yields no items, and only structurally
/// broken markup is an error.
pub fn parse_rss_items(xml: &str) -> (r: Result<Vec<FeedItem>, ParseError>)
    ensures
        match r {
            Ok(v) => spec_parse_feed(xml@) == Ok::<Seq<FeedItemView>, ()>(
                v@.map_values(|x: FeedItem| x@),
            ),
            Err(e) => spec_parse_feed(xml@) is Err,
        },
{
    let cs = chars_of(xml);
    let s = cs.as_slice();
    let c_open: Vec<char> = vec!['<', '!', '-', '-'];
    let c_close: Vec<char> = vec!['-', '-', '>'];
    proof {
        assert(c_open@ =~= pat_comment_open());
        assert(c_close@ =~= pat_comment_close());
    }
    let mut in_item = false;
    let mut capturing_date = false;
    let mut current_tag: Vec<char> = Vec::new();
    let mut date_text: Vec<char> = Vec::new();
    let mut current: Option<FeedItem> = None;
    let mut items: Vec<FeedItem> = Vec::new();
    let mut i: usize = 0;
    proof {
        assert(items@.map_values(|x: FeedItem| x@) =~= Seq::<FeedItemView>::empty());
        assert(current_tag@ =~= Seq::<char>::empty());
        assert(date_text@ =~= Seq::<char>::empty());
    }
    loop
        invariant
            i <= s@.len(),
            s@ == xml@,
            c_open@ == pat_comment_open(),
            c_close@ == pat_comment_close(),
            spec_parse_feed(xml@) == feed_fold(
                s@,
                i as int,
                FeedState {
                    in_item: in_item,
                    capturing_date: capturing_date,
                    current_tag: current_tag@,
                    date_text: date_text@,
                    current: opt_item_view(current),
                    items: items@.map_values(|x: FeedItem| x@),
                },
            ),
        decreases s@.len() - i,
    {
        let ghost st = FeedState {
            in_item: in_item,
            capturing_date: capturing_date,
            current_tag: current_tag@,
            date_text: date_text@,
            current: opt_item_view(current),
            items: items@.map_values(|x: FeedItem| x@),
        };
        let (ev, next) = next_event(s, i, c_open.as_slice(), c_close.as_slice());
        proof {
            lemma_event_at_bounds(s@, i as int);
        }
        match ev {
            RawEvent::Eof => {
                return Ok(items);
            },
            RawEvent::Fail => {
                return Err(ParseError);
            },
            RawEvent::Start(name) => {
                if chars_eq_str(name.as_slice(), "item") {
                    in_item = true;
                    current = Some(
                        FeedItem {
                            stortinget_id: String::new(),
                            title: String::new(),
                            stortinget_link: None,
                            feed_description: None,
                            decision_date: None,
                        },
                    );
                } else if in_item && chars_eq_str(name.as_slice(), "dc:date") {
                    capturing_date = true;
                    date_text = Vec::new();
                } else if in_item {
                    current_tag = name;
                }
            },
            RawEvent::Text(t) => {
                if in_item {
                    if capturing_date {
                        let mut dt = date_text;
                        extend_from_range(&mut dt, t.as_slice(), 0, t.len());
                        proof {
                            assert(t@.subrange(0, t@.len() as int) =~= t@);
                        }
                        date_text = dt;
                    } else if chars_eq_str(current_tag.as_slice(), "title") {
                        current = match current {
                            Some(it) => Some(
                                FeedItem {
                                    stortinget_id: string_of(t.as_slice()),
                                    title: string_of(t.as_slice()),
                                    ..it
                                },
                            ),
                            None => None,
                        };
                    } else if chars_eq_str(current_tag.as_slice(), "link") {
                        current = match current {
                            Some(it) => Some(
                                FeedItem { stortinget_link: Some(string_of(t.as_slice())), ..it },
                            ),
                            None => None,
                        };
                    } else if chars_eq_str(current_tag.as_slice(), "description") {
                        current = match current {
                            Some(it) => Some(
                                FeedItem { feed_description: Some(string_of(t.as_slice())), ..it },
                            ),
                            None => None,
                        };
                    }
                }
            },
            RawEvent::End(name) => {
                if chars_eq_str(name.as_slice(), "item") {
                    match current {
                        Some(it) => {
                            proof {
                                assert(items@.push(it).map_values(|x: FeedItem| x@)
                                    =~= items@.map_values(|x: FeedItem| x@).push(it@));
                            }
                            items.push(it);
                        },
                        None => {},
                    }
                    current = None;
                    in_item = false;
                    capturing_date = false;
                    current_tag = Vec::new();
                } else if in_item && chars_eq_str(name.as_slice(), "dc:date") {
                    current = match current {
                        Some(it) => Some(
                            FeedItem { decision_date: parse_date_chars(date_text.as_slice()), ..it },
                        ),
                        None => None,
                    };
                    capturing_date = false;
                    current_tag = Vec::new();
                } else {
                    current_tag = Vec::new();
                }
            },
            RawEvent::Skip => {},
        }
        i = next;
    }
}

/// The `YYYY-MM-DD` prefix of gathered date text.
fn parse_date_chars(s: &[char]) -> (r: Option<String>)
    ensures
        match r {
            Some(d) => spec_parse_date(s@) == Some(d@),
            None => spec_parse_date(s@) is None,
        },
{
    let t = index_of_char(s, 0, 'T');
    if t >= 10 {
        let mut d: Vec<char> = Vec::new();
        extend_from_range(&mut d, s, 0, 10);
        proof {
            assert(d@ =~= s@.subrange(0, 10));
        }
        Some(string_of(d.as_slice()))
    } else {
        None
    }
}

} // verus!
