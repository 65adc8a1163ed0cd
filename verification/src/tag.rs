//! A streaming parser for XML-like tags.
use crate::text::chars_of;
use vstd::prelude::*;
use vstd::string::*;

verus! {

/// Where the parser stands inside a tag.
#[verifier::ext_equal]
#[allow(inconsistent_fields)]
pub enum TagState {
    /// Outside any tag.
    ExpectTagName,
    /// After `<` and the characters of `name`.
    OpeningTag { name: Seq<char> },
    /// After `<name/`.
    SelfClosing { name: Seq<char> },
    /// After `<tag_name>` and `content`.
    CollectContent { tag_name: Seq<char>, content: Seq<char> },
    /// After a `<` in the content and the characters of `close_name`.
    ExpectCloseTag { tag_name: Seq<char>, content: Seq<char>, close_name: Seq<char> },
    /// A complete tag; a self-closing one has no content.
    ClosedTag { tag_name: Seq<char>, content: Option<Seq<char>> },
}

/// What a parser knows: its state, the text of the tag in progress as it was
/// typed, and the states to go back to, oldest first.
#[verifier::ext_equal]
pub struct ParserView {
    pub state: TagState,
    pub text: Seq<char>,
    pub history: Seq<(TagState, Seq<char>)>,
}

/// A parser that has seen nothing.
pub open spec fn fresh() -> ParserView {
    ParserView {
        state: TagState::ExpectTagName,
        text: Seq::empty(),
        history: Seq::empty(),
    }
}

/// The state and tag text after one more character, or `None` where the
/// character cannot continue any tag and everything is forgotten.
pub open spec fn advanced(state: TagState, text: Seq<char>, ch: char) -> Option<
    (TagState, Seq<char>),
> {
    match state {
        TagState::ExpectTagName | TagState::ClosedTag { .. } => if ch == '<' {
            Some((TagState::OpeningTag { name: Seq::empty() }, seq!['<']))
        } else {
            None
        },
        TagState::OpeningTag { name } => {
            let next = if ch == '>' {
                TagState::CollectContent { tag_name: name, content: Seq::empty() }
            } else if ch == '/' {
                TagState::SelfClosing { name }
            } else {
                TagState::OpeningTag { name: name.push(ch) }
            };
            Some((next, text.push(ch)))
        },
        TagState::SelfClosing { name } => if ch == '>' {
            Some((TagState::ClosedTag { tag_name: name, content: None }, text.push(ch)))
        } else {
            None
        },
        TagState::CollectContent { tag_name, content } => {
            let next = if ch == '<' {
                TagState::ExpectCloseTag { tag_name, content, close_name: Seq::empty() }
            } else {
                TagState::CollectContent { tag_name, content: content.push(ch) }
            };
            Some((next, text.push(ch)))
        },
        TagState::ExpectCloseTag { tag_name, content, close_name } => {
            let next = if ch == '/' && close_name.len() == 0 {
                state
            } else if ch == '>' {
                if close_name == tag_name {
                    TagState::ClosedTag { tag_name, content: Some(content) }
                } else {
                    TagState::CollectContent {
                        tag_name,
                        content: content + seq!['<', '/'] + close_name + seq!['>'],
                    }
                }
            } else {
                TagState::ExpectCloseTag { tag_name, content, close_name: close_name.push(ch) }
            };
            Some((next, text.push(ch)))
        },
    }
}

/// The parser after one more character.
pub open spec fn consumed(parser: ParserView, ch: char) -> ParserView {
    match advanced(parser.state, parser.text, ch) {
        Some((state, text)) => ParserView {
            state,
            text,
            history: parser.history.push((parser.state, parser.text)),
        },
        None => fresh(),
    }
}

/// The parser after all the characters of `s`.
pub open spec fn fed(parser: ParserView, s: Seq<char>) -> ParserView
    decreases s.len(),
{
    if s.len() == 0 {
        parser
    } else {
        consumed(fed(parser, s.drop_last()), s.last())
    }
}

/// The parser with its last character taken back; the same parser where there
/// is nothing to go back to.
pub open spec fn reverted(parser: ParserView) -> ParserView {
    if parser.history.len() == 0 {
        parser
    } else {
        ParserView {
            state: parser.history.last().0,
            text: parser.history.last().1,
            history: parser.history.drop_last(),
        }
    }
}

/// Whether taking the tag out of a parser gives this and leaves it so.
pub open spec fn is_taken_from(
    before: ParserView,
    after: ParserView,
    tag: Option<(Seq<char>, Option<Seq<char>>, Seq<char>)>,
) -> bool {
    match before.state {
        TagState::ClosedTag { tag_name, content } => {
            &&& tag == Some((tag_name, content, before.text))
            &&& after == fresh()
        },
        _ => tag is None && after == before,
    }
}

/// The characters of an optional string.
pub open spec fn optional_text(text: Option<String>) -> Option<Seq<char>> {
    match text {
        Some(text) => Some(text@),
        None => None,
    }
}

#[derive(Debug)]
#[allow(inconsistent_fields)]
enum State {
    ExpectTagName,
    OpeningTag { name: String },
    SelfClosing { name: String },
    CollectContent { tag_name: String, content: String },
    ExpectCloseTag { tag_name: String, content: String, close_name: String },
    ClosedTag { tag_name: String, content: Option<String> },
}

impl State {
    spec fn spec_state(self) -> TagState {
        match self {
            State::ExpectTagName => TagState::ExpectTagName,
            State::OpeningTag { name } => TagState::OpeningTag { name: name@ },
            State::SelfClosing { name } => TagState::SelfClosing { name: name@ },
            State::CollectContent { tag_name, content } => TagState::CollectContent {
                tag_name: tag_name@,
                content: content@,
            },
            State::ExpectCloseTag { tag_name, content, close_name } => TagState::ExpectCloseTag {
                tag_name: tag_name@,
                content: content@,
                close_name: close_name@,
            },
            State::ClosedTag { tag_name, content } => TagState::ClosedTag {
                tag_name: tag_name@,
                content: optional_text(content),
            },
        }
    }

    fn duplicate(&self) -> (copy: State)
        ensures
            copy.spec_state() == self.spec_state(),
    {
        match self {
            State::ExpectTagName => State::ExpectTagName,
            State::OpeningTag { name } => State::OpeningTag { name: name.clone() },
            State::SelfClosing { name } => State::SelfClosing { name: name.clone() },
            State::CollectContent { tag_name, content } => State::CollectContent {
                tag_name: tag_name.clone(),
                content: content.clone(),
            },
            State::ExpectCloseTag { tag_name, content, close_name } => State::ExpectCloseTag {
                tag_name: tag_name.clone(),
                content: content.clone(),
                close_name: close_name.clone(),
            },
            State::ClosedTag { tag_name, content } => State::ClosedTag {
                tag_name: tag_name.clone(),
                content: match content {
                    Some(content) => Some(content.clone()),
                    None => None,
                },
            },
        }
    }

    /// The state after `ch`, or `None` where no tag goes on with it.
    fn next(self, ch: char) -> (next: Option<State>)
        ensures
            forall|text: Seq<char>|
                match (next, #[trigger] advanced(self.spec_state(), text, ch)) {
                    (Some(state), Some((expected, _))) => state.spec_state() == expected,
                    (None, None) => true,
                    _ => false,
                },
    {
        match self {
            State::ExpectTagName | State::ClosedTag { .. } => {
                if ch == '<' {
                    Some(State::OpeningTag { name: String::new() })
                } else {
                    None
                }
            },
            State::OpeningTag { mut name } => {
                if ch == '>' {
                    Some(State::CollectContent { tag_name: name, content: String::new() })
                } else if ch == '/' {
                    Some(State::SelfClosing { name })
                } else {
                    name.push(ch);
                    Some(State::OpeningTag { name })
                }
            },
            State::SelfClosing { name } => {
                if ch == '>' {
                    Some(State::ClosedTag { tag_name: name, content: None })
                } else {
                    None
                }
            },
            State::CollectContent { tag_name, mut content } => {
                if ch == '<' {
                    Some(State::ExpectCloseTag { tag_name, content, close_name: String::new() })
                } else {
                    content.push(ch);
                    Some(State::CollectContent { tag_name, content })
                }
            },
            State::ExpectCloseTag { tag_name, mut content, mut close_name } => {
                if ch == '/' && close_name.as_str().is_empty() {
                    Some(State::ExpectCloseTag { tag_name, content, close_name })
                } else if ch == '>' {
                    if close_name == tag_name {
                        Some(State::ClosedTag { tag_name, content: Some(content) })
                    } else {
                        content.append("</");
                        content.append(close_name.as_str());
                        content.push('>');
                        proof {
                            reveal_strlit("</");
                            let before = self->ExpectCloseTag_content@;
                            assert("</"@ =~= seq!['<', '/']);
                            assert(content@ =~= before + seq!['<', '/'] + close_name@ + seq!['>']);
                        }
                        Some(State::CollectContent { tag_name, content })
                    }
                } else {
                    close_name.push(ch);
                    Some(State::ExpectCloseTag { tag_name, content, close_name })
                }
            },
        }
    }
}

/// A parser's state before a character: what to go back to.
#[derive(Debug)]
struct Snapshot {
    state: State,
    text: String,
}

/// A streaming, state-machine parser for XML-like tags.
///
/// Feed characters one at a time with [`TagParser::consume`]. Once a complete
/// `<tag>content</tag>` or `<tag/>` has been parsed, [`TagParser::take`]
/// returns it.
#[derive(Debug)]
pub struct TagParser {
    state: State,
    /// The tag in progress, as typed.
    text: String,
    /// Number of characters fed since the last reset.
    chars_consumed: usize,
    history: Vec<Snapshot>,
}

impl View for TagParser {
    type V = ParserView;

    closed spec fn view(&self) -> ParserView {
        ParserView {
            state: self.state.spec_state(),
            text: self.text@,
            history: self.history@.map_values(
                |snapshot: Snapshot| (snapshot.state.spec_state(), snapshot.text@),
            ),
        }
    }
}

impl Default for TagParser {
    fn default() -> (parser: Self)
        ensures
            parser.wf(),
            parser@ == fresh(),
    {
        let parser = TagParser {
            state: State::ExpectTagName,
            text: String::new(),
            chars_consumed: 0,
            history: Vec::new(),
        };
        assert(parser@ =~= fresh());
        parser
    }
}

impl TagParser {
    /// Every character since the last reset can be taken back.
    pub closed spec fn wf(&self) -> bool {
        self.chars_consumed == self.history@.len()
    }

    /// Advances the parser by one character.
    pub fn consume(&mut self, ch: char)
        requires
            old(self).wf(),
        ensures
            final(self).wf(),
            final(self)@ == consumed(old(self)@, ch),
    {
        let ghost before = self@;
        let mut state = State::ExpectTagName;
        std::mem::swap(&mut state, &mut self.state);
        let restart = match &state {
            State::ExpectTagName | State::ClosedTag { .. } => true,
            _ => false,
        };
        let kept = state.duplicate();
        match state.next(ch) {
            Some(next) => {
                let previous = self.text.clone();
                if restart {
                    self.text = String::new();
                }
                self.text.push(ch);
                self.state = next;
                self.history.push(Snapshot { state: kept, text: previous });
                let length: usize = self.history.len();
                self.chars_consumed = length;
                proof {
                    assert(advanced(before.state, before.text, ch) is Some);
                    assert(Seq::<char>::empty().push('<') =~= seq!['<']);
                    let (_, text) = advanced(before.state, before.text, ch)->0;
                    assert(self@.text == text);
                    assert(self@.history =~= before.history.push((before.state, before.text)));
                }
            },
            None => {
                self.clear();
                self.state = State::ExpectTagName;
                proof {
                    assert(advanced(before.state, before.text, ch) is None);
                    assert(self@ =~= fresh());
                }
            },
        }
    }

    /// Feeds every character of `s`.
    pub fn feed(&mut self, s: &str)
        requires
            old(self).wf(),
        ensures
            final(self).wf(),
            final(self)@ == fed(old(self)@, s@),
    {
        let chars = chars_of(s);
        let mut i: usize = 0;
        assert(s@.take(0) =~= Seq::<char>::empty());
        while i < chars.len()
            invariant
                chars@ == s@,
                i <= chars@.len(),
                self.wf(),
                self@ == fed(old(self)@, s@.take(i as int)),
            decreases chars@.len() - i,
        {
            assert(s@.take(i + 1).drop_last() =~= s@.take(i as int));
            assert(s@.take(i + 1).last() == s@[i as int]);
            self.consume(chars[i]);
            i += 1;
        }
        assert(s@.take(i as int) =~= s@);
    }

    /// If a complete tag has been parsed, returns `(tag_name, content,
    /// tag_text)` and resets the parser. `tag_text` is the tag as it was typed
    /// (e.g. `<tag>content</tag>` or `<tag/>`). Returns `None` otherwise.
    pub fn take(&mut self) -> (tag: Option<(String, Option<String>, String)>)
        requires
            old(self).wf(),
        ensures
            final(self).wf(),
            is_taken_from(
                old(self)@,
                final(self)@,
                match tag {
                    Some((name, body, text)) => Some((name@, optional_text(body), text@)),
                    None => None,
                },
            ),
    {
        if !self.is_closed() {
            return None;
        }
        let mut state = State::ExpectTagName;
        std::mem::swap(&mut state, &mut self.state);
        let mut tag_text = String::new();
        std::mem::swap(&mut tag_text, &mut self.text);
        self.clear();
        assert(self@ =~= fresh());
        match state {
            State::ClosedTag { tag_name, content } => Some((tag_name, content, tag_text)),
            _ => None,
        }
    }

    /// The number of characters consumed since the last reset.
    pub fn chars_consumed(&self) -> (count: usize)
        requires
            self.wf(),
        ensures
            count == self@.history.len(),
    {
        self.chars_consumed
    }

    /// Whether the parser is outside any tag.
    pub fn is_expecting_tag_name(&self) -> (outside: bool)
        ensures
            outside == (self@.state is ExpectTagName),
    {
        match &self.state {
            State::ExpectTagName => true,
            _ => false,
        }
    }

    /// Whether a complete tag has been parsed.
    pub fn is_closed(&self) -> (closed: bool)
        ensures
            closed == (self@.state is ClosedTag),
    {
        match &self.state {
            State::ClosedTag { .. } => true,
            _ => false,
        }
    }

    /// The name typed so far, inside an opening tag.
    pub fn opening_tag_name(&self) -> (found: Option<&str>)
        ensures
            match self@.state {
                TagState::OpeningTag { name } => found matches Some(n) && n@ == name,
                _ => found is None,
            },
    {
        match &self.state {
            State::OpeningTag { name } => Some(name.as_str()),
            _ => None,
        }
    }

    /// The tag name and the content typed so far, inside a tag's content.
    pub fn collected_content(&self) -> (found: Option<(&str, &str)>)
        ensures
            match self@.state {
                TagState::CollectContent { tag_name, content } => found matches Some((n, c))
                    && n@ == tag_name && c@ == content,
                _ => found is None,
            },
    {
        match &self.state {
            State::CollectContent { tag_name, content } => Some(
                (tag_name.as_str(), content.as_str()),
            ),
            _ => None,
        }
    }

    /// The tag name, its content, and the closing name typed so far, inside a
    /// closing tag.
    pub fn close_tag_state(&self) -> (found: Option<(&str, &str, &str)>)
        ensures
            match self@.state {
                TagState::ExpectCloseTag { tag_name, content, close_name } => found matches Some(
                    (n, c, close),
                ) && n@ == tag_name && c@ == content && close@ == close_name,
                _ => found is None,
            },
    {
        match &self.state {
            State::ExpectCloseTag { tag_name, content, close_name } => Some(
                (tag_name.as_str(), content.as_str(), close_name.as_str()),
            ),
            _ => None,
        }
    }

    /// Takes back the last consumed character. Returns `true` if a character
    /// was removed, `false` if there is nothing to go back to.
    pub fn remove_char(&mut self) -> (removed: bool)
        requires
            old(self).wf(),
        ensures
            final(self).wf(),
            removed == (old(self)@.history.len() > 0),
            final(self)@ == reverted(old(self)@),
    {
        let ghost before = self@;
        match self.history.pop() {
            Some(snapshot) => {
                self.state = snapshot.state;
                self.text = snapshot.text;
                self.chars_consumed -= 1;
                assert(self@.history =~= before.history.drop_last());
                true
            },
            None => false,
        }
    }

    fn clear(&mut self)
        ensures
            final(self).wf(),
            final(self).state == old(self).state,
            final(self)@.text == Seq::<char>::empty(),
            final(self)@.history == Seq::<(TagState, Seq<char>)>::empty(),
    {
        self.chars_consumed = 0;
        self.text = String::new();
        self.history.clear();
        assert(self@.history =~= Seq::empty());
    }
}

// ---------------------------------------------------------------------------
// Laws
// ---------------------------------------------------------------------------

/// Taking a character back undoes consuming it, unless the character made the
/// parser forget everything.
pub proof fn law_remove_char_undoes_consume(parser: ParserView, ch: char)
    requires
        advanced(parser.state, parser.text, ch) is Some,
    ensures
        reverted(consumed(parser, ch)) == parser,
{
    assert(parser.history.push((parser.state, parser.text)).drop_last() =~= parser.history);
}

/// A character that continues no tag leaves a fresh parser, with nothing to
/// take back.
pub proof fn law_reset_forgets_everything(parser: ParserView, ch: char)
    requires
        advanced(parser.state, parser.text, ch) is None,
    ensures
        consumed(parser, ch) == fresh(),
        reverted(consumed(parser, ch)) == fresh(),
{
}

/// Feeding a text is feeding its parts one after the other.
pub proof fn law_feed_splits(parser: ParserView, a: Seq<char>, b: Seq<char>)
    ensures
        fed(parser, a + b) == fed(fed(parser, a), b),
    decreases b.len(),
{
    if b.len() == 0 {
        assert(a + b =~= a);
    } else {
        assert((a + b).drop_last() =~= a + b.drop_last());
        law_feed_splits(parser, a, b.drop_last());
    }
}

/// The text of the tag in progress is the end of what was typed.
pub proof fn law_text_is_what_was_typed(s: Seq<char>)
    ensures
        fed(fresh(), s).text.len() <= s.len(),
        fed(fresh(), s).text == s.skip(s.len() - fed(fresh(), s).text.len()),
    decreases s.len(),
{
    if s.len() > 0 {
        law_text_is_what_was_typed(s.drop_last());
        let before = fed(fresh(), s.drop_last());
        let after = fed(fresh(), s);
        assert(after.text =~= s.skip(s.len() - after.text.len()));
    }
}

/// The number of characters to take back never exceeds what was typed.
pub proof fn law_history_counts_typed_characters(s: Seq<char>)
    ensures
        fed(fresh(), s).history.len() <= s.len(),
        fed(fresh(), s).text.len() <= fed(fresh(), s).history.len(),
    decreases s.len(),
{
    if s.len() > 0 {
        law_history_counts_typed_characters(s.drop_last());
    }
}

/// Characters of a tag name extend the opening tag.
proof fn lemma_feed_name(parser: ParserView, name: Seq<char>, s: Seq<char>)
    requires
        parser.state == (TagState::OpeningTag { name }),
        !s.contains('>'),
        !s.contains('/'),
    ensures
        fed(parser, s).state == (TagState::OpeningTag { name: name + s }),
        fed(parser, s).text == parser.text + s,
        fed(parser, s).history.len() == parser.history.len() + s.len(),
    decreases s.len(),
{
    if s.len() == 0 {
        assert(name + s =~= name);
        assert(parser.text + s =~= parser.text);
    } else {
        lemma_without(s, '>');
        lemma_without(s, '/');
        lemma_feed_name(parser, name, s.drop_last());
        assert((name + s.drop_last()).push(s.last()) =~= name + s);
        assert((parser.text + s.drop_last()).push(s.last()) =~= parser.text + s);
    }
}

/// Characters other than `<` extend the content.
proof fn lemma_feed_content(
    parser: ParserView,
    tag_name: Seq<char>,
    content: Seq<char>,
    s: Seq<char>,
)
    requires
        parser.state == (TagState::CollectContent { tag_name, content }),
        !s.contains('<'),
    ensures
        fed(parser, s).state == (TagState::CollectContent { tag_name, content: content + s }),
        fed(parser, s).text == parser.text + s,
        fed(parser, s).history.len() == parser.history.len() + s.len(),
    decreases s.len(),
{
    if s.len() == 0 {
        assert(content + s =~= content);
        assert(parser.text + s =~= parser.text);
    } else {
        lemma_without(s, '<');
        lemma_feed_content(parser, tag_name, content, s.drop_last());
        assert((content + s.drop_last()).push(s.last()) =~= content + s);
        assert((parser.text + s.drop_last()).push(s.last()) =~= parser.text + s);
    }
}

/// Characters other than `>` and `/` extend the closing name.
proof fn lemma_feed_close_name(
    parser: ParserView,
    tag_name: Seq<char>,
    content: Seq<char>,
    close_name: Seq<char>,
    s: Seq<char>,
)
    requires
        parser.state == (TagState::ExpectCloseTag { tag_name, content, close_name }),
        !s.contains('>'),
        !s.contains('/'),
    ensures
        fed(parser, s).state == (TagState::ExpectCloseTag {
            tag_name,
            content,
            close_name: close_name + s,
        }),
        fed(parser, s).text == parser.text + s,
        fed(parser, s).history.len() == parser.history.len() + s.len(),
    decreases s.len(),
{
    if s.len() == 0 {
        assert(close_name + s =~= close_name);
        assert(parser.text + s =~= parser.text);
    } else {
        lemma_without(s, '>');
        lemma_without(s, '/');
        lemma_feed_close_name(parser, tag_name, content, close_name, s.drop_last());
        assert((close_name + s.drop_last()).push(s.last()) =~= close_name + s);
        assert((parser.text + s.drop_last()).push(s.last()) =~= parser.text + s);
    }
}

proof fn lemma_without(s: Seq<char>, c: char)
    requires
        s.len() > 0,
        !s.contains(c),
    ensures
        !s.drop_last().contains(c),
        s.last() != c,
{
    assert(s.contains(s.last()));
    if s.drop_last().contains(c) {
        let i = choose|i: int| 0 <= i < s.drop_last().len() && s.drop_last()[i] == c;
        assert(s[i] == c);
    }
}

proof fn lemma_feed_one(parser: ParserView, ch: char)
    ensures
        fed(parser, seq![ch]) == consumed(parser, ch),
{
    let s = seq![ch];
    assert(s.drop_last() =~= Seq::empty());
    assert(fed(parser, s.drop_last()) == parser);
    assert(s.last() == ch);
}

/// `<name`, typed outside any tag, opens a tag of that name.
proof fn lemma_open(parser: ParserView, name: Seq<char>)
    requires
        parser.state is ExpectTagName || parser.state is ClosedTag,
        !name.contains('>'),
        !name.contains('/'),
    ensures
        fed(parser, seq!['<'] + name).state == (TagState::OpeningTag { name }),
        fed(parser, seq!['<'] + name).text == seq!['<'] + name,
        fed(parser, seq!['<'] + name).history.len() == parser.history.len() + 1 + name.len(),
{
    law_feed_splits(parser, seq!['<'], name);
    lemma_feed_one(parser, '<');
    lemma_feed_name(consumed(parser, '<'), Seq::empty(), name);
    assert(Seq::<char>::empty() + name =~= name);
}

/// The text `<name/>`.
pub open spec fn self_closing_tag(name: Seq<char>) -> Seq<char> {
    seq!['<'] + name + seq!['/', '>']
}

/// The text `<name>content</name>`.
pub open spec fn element(name: Seq<char>, content: Seq<char>) -> Seq<char> {
    seq!['<'] + name + seq!['>'] + content + seq!['<', '/'] + name + seq!['>']
}

/// Typing `<name/>` outside any tag completes a tag of that name without
/// content, whose text is what was typed.
pub proof fn law_self_closing_tag_is_parsed(parser: ParserView, name: Seq<char>)
    requires
        parser.state is ExpectTagName || parser.state is ClosedTag,
        !name.contains('>'),
        !name.contains('/'),
    ensures
        fed(parser, self_closing_tag(name)).state == (TagState::ClosedTag {
            tag_name: name,
            content: None,
        }),
        fed(parser, self_closing_tag(name)).text == self_closing_tag(name),
        fed(parser, self_closing_tag(name)).history.len() == parser.history.len()
            + self_closing_tag(name).len(),
{
    let open = seq!['<'] + name;
    lemma_open(parser, name);
    let opened = fed(parser, open);
    assert(self_closing_tag(name) =~= open + seq!['/'] + seq!['>']);
    law_feed_splits(parser, open + seq!['/'], seq!['>']);
    law_feed_splits(parser, open, seq!['/']);
    lemma_feed_one(opened, '/');
    lemma_feed_one(consumed(opened, '/'), '>');
    assert(open.push('/').push('>') =~= self_closing_tag(name));
}

/// Typing `<name>content</name>` outside any tag completes a tag of that name
/// with that content, whose text is what was typed.
pub proof fn law_element_is_parsed(parser: ParserView, name: Seq<char>, content: Seq<char>)
    requires
        parser.state is ExpectTagName || parser.state is ClosedTag,
        !name.contains('>'),
        !name.contains('/'),
        !content.contains('<'),
    ensures
        fed(parser, element(name, content)).state == (TagState::ClosedTag {
            tag_name: name,
            content: Some(content),
        }),
        fed(parser, element(name, content)).text == element(name, content),
        fed(parser, element(name, content)).history.len() == parser.history.len() + element(
            name,
            content,
        ).len(),
{
    let open = seq!['<'] + name;
    let head = open + seq!['>'];
    let body = head + content;
    let turn = body + seq!['<'];
    let slash = turn + seq!['/'];
    let close = slash + name;
    assert(element(name, content) =~= close + seq!['>']);

    lemma_open(parser, name);
    let p1 = fed(parser, open);
    law_feed_splits(parser, open, seq!['>']);
    lemma_feed_one(p1, '>');
    let p2 = fed(parser, head);
    assert(p2.text =~= head);

    law_feed_splits(parser, head, content);
    lemma_feed_content(p2, name, Seq::empty(), content);
    assert(Seq::<char>::empty() + content =~= content);
    let p3 = fed(parser, body);
    assert(p3.text =~= body);

    law_feed_splits(parser, body, seq!['<']);
    lemma_feed_one(p3, '<');
    let p4 = fed(parser, turn);
    assert(p4.text =~= turn);

    law_feed_splits(parser, turn, seq!['/']);
    lemma_feed_one(p4, '/');
    let p5 = fed(parser, slash);
    assert(p5.text =~= slash);

    law_feed_splits(parser, slash, name);
    lemma_feed_close_name(p5, name, content, Seq::empty(), name);
    assert(Seq::<char>::empty() + name =~= name);
    let p6 = fed(parser, close);
    assert(p6.text =~= close);

    law_feed_splits(parser, close, seq!['>']);
    lemma_feed_one(p6, '>');
    assert(close.push('>') =~= element(name, content));
}

/// A part of a text without a character is without it too.
proof fn lemma_part_without(s: Seq<char>, n: int, c: char)
    requires
        0 <= n <= s.len(),
        !s.contains(c),
    ensures
        !s.take(n).contains(c),
{
    if s.take(n).contains(c) {
        let i = choose|i: int| 0 <= i < n && s.take(n)[i] == c;
        assert(s[i] == c);
    }
}

/// No tag is complete before the last character of `<name/>`.
pub proof fn lemma_self_closing_tag_prefix(parser: ParserView, name: Seq<char>, n: int)
    requires
        parser.state is ExpectTagName || parser.state is ClosedTag,
        !name.contains('>'),
        !name.contains('/'),
        1 <= n < self_closing_tag(name).len(),
    ensures
        fed(parser, self_closing_tag(name).take(n)).state !is ClosedTag,
{
    let text = self_closing_tag(name);
    if n <= 1 + name.len() {
        lemma_part_without(name, n - 1, '>');
        lemma_part_without(name, n - 1, '/');
        lemma_open(parser, name.take(n - 1));
        assert(text.take(n) =~= seq!['<'] + name.take(n - 1));
    } else {
        let open = seq!['<'] + name;
        lemma_open(parser, name);
        law_feed_splits(parser, open, seq!['/']);
        lemma_feed_one(fed(parser, open), '/');
        assert(text.take(n) =~= open + seq!['/']);
    }
}

/// No tag is complete before the last character of `<name>content</name>`.
pub proof fn lemma_element_prefix(parser: ParserView, name: Seq<char>, content: Seq<char>, n: int)
    requires
        parser.state is ExpectTagName || parser.state is ClosedTag,
        !name.contains('>'),
        !name.contains('/'),
        !content.contains('<'),
        1 <= n < element(name, content).len(),
    ensures
        fed(parser, element(name, content).take(n)).state !is ClosedTag,
{
    let text = element(name, content);
    let open = seq!['<'] + name;
    let head = open + seq!['>'];
    let body = head + content;
    let turn = body + seq!['<'];
    let slash = turn + seq!['/'];
    if n <= open.len() {
        lemma_part_without(name, n - 1, '>');
        lemma_part_without(name, n - 1, '/');
        lemma_open(parser, name.take(n - 1));
        assert(text.take(n) =~= seq!['<'] + name.take(n - 1));
    } else {
        lemma_open(parser, name);
        law_feed_splits(parser, open, seq!['>']);
        lemma_feed_one(fed(parser, open), '>');
        let p2 = fed(parser, head);
        if n <= body.len() {
            let part = content.take(n - head.len());
            lemma_part_without(content, n - head.len(), '<');
            law_feed_splits(parser, head, part);
            lemma_feed_content(p2, name, Seq::empty(), part);
            assert(text.take(n) =~= head + part);
        } else {
            law_feed_splits(parser, head, content);
            lemma_feed_content(p2, name, Seq::empty(), content);
            let p3 = fed(parser, body);
            law_feed_splits(parser, body, seq!['<']);
            lemma_feed_one(p3, '<');
            let p4 = fed(parser, turn);
            if n == turn.len() {
                assert(text.take(n) =~= turn);
            } else {
                law_feed_splits(parser, turn, seq!['/']);
                lemma_feed_one(p4, '/');
                let p5 = fed(parser, slash);
                let part = name.take(n - slash.len());
                lemma_part_without(name, n - slash.len(), '>');
                lemma_part_without(name, n - slash.len(), '/');
                law_feed_splits(parser, slash, part);
                lemma_feed_close_name(
                    p5,
                    name,
                    Seq::empty() + content,
                    Seq::empty(),
                    part,
                );
                assert(text.take(n) =~= slash + part);
            }
        }
    }
}

/// A parser forgets everything at a character outside any tag that is not `<`,
/// and at one behind `<name/` that is not `>`, and at no other. Any other
/// character adds itself to the tag's text, or begins it, and can be taken
/// back.
pub proof fn law_when_a_parser_forgets(parser: ParserView, ch: char)
    ensures
        ({
            let after = consumed(parser, ch);
            let outside = parser.state is ExpectTagName || parser.state is ClosedTag;
            if (outside && ch != '<') || (parser.state is SelfClosing && ch != '>') {
                &&& after.state is ExpectTagName
                &&& after.text.len() == 0
                &&& after.history.len() == 0
            } else {
                &&& reverted(after) == parser
                &&& after.history.len() == parser.history.len() + 1
                &&& after.state !is ExpectTagName
                &&& after.text == if outside {
                    seq!['<']
                } else {
                    parser.text.push(ch)
                }
            }
        }),
{
    assert(parser.history.push((parser.state, parser.text)).drop_last() =~= parser.history);
}

/// A parser that has seen nothing is outside any tag, and there is nothing to
/// take back.
pub proof fn law_a_fresh_parser()
    ensures
        fresh().state is ExpectTagName,
        fresh().text.len() == 0,
        fresh().history.len() == 0,
        reverted(fresh()) == fresh(),
{
}

/// A closing tag with another name is part of the content, as it was typed.
pub proof fn law_other_closing_tags_are_content(
    parser: ParserView,
    tag_name: Seq<char>,
    content: Seq<char>,
    other: Seq<char>,
)
    requires
        parser.state == (TagState::CollectContent { tag_name, content }),
        !other.contains('>'),
        !other.contains('/'),
        other != tag_name,
    ensures
        fed(parser, seq!['<', '/'] + other + seq!['>']).state == (TagState::CollectContent {
            tag_name,
            content: content + seq!['<', '/'] + other + seq!['>'],
        }),
        fed(parser, seq!['<', '/'] + other + seq!['>']).text == parser.text + seq!['<', '/'] + other
            + seq!['>'],
{
    let turn = seq!['<'];
    let slash = seq!['<'] + seq!['/'];
    let close = slash + other;
    let all = close + seq!['>'];
    assert(all =~= seq!['<', '/'] + other + seq!['>']);
    lemma_feed_one(parser, '<');
    let p1 = fed(parser, turn);
    law_feed_splits(parser, turn, seq!['/']);
    lemma_feed_one(p1, '/');
    let p2 = fed(parser, slash);
    law_feed_splits(parser, slash, other);
    lemma_feed_close_name(p2, tag_name, content, Seq::empty(), other);
    assert(Seq::<char>::empty() + other =~= other);
    let p3 = fed(parser, close);
    law_feed_splits(parser, close, seq!['>']);
    lemma_feed_one(p3, '>');
    assert(fed(parser, all).text =~= parser.text + seq!['<', '/'] + other + seq!['>']);
}

/// A tag whose content holds the closing tag of another name is completed by
/// its own closing tag, with all of the content.
pub proof fn law_elements_hold_other_closing_tags(
    parser: ParserView,
    name: Seq<char>,
    before: Seq<char>,
    other: Seq<char>,
    after: Seq<char>,
)
    requires
        parser.state is ExpectTagName || parser.state is ClosedTag,
        !name.contains('>'),
        !name.contains('/'),
        !before.contains('<'),
        !after.contains('<'),
        !other.contains('>'),
        !other.contains('/'),
        other != name,
    ensures
        ({
            let content = before + seq!['<', '/'] + other + seq!['>'] + after;
            let text = seq!['<'] + name + seq!['>'] + content + seq!['<', '/'] + name + seq!['>'];
            &&& fed(parser, text).state == (TagState::ClosedTag {
                tag_name: name,
                content: Some(content),
            })
            &&& fed(parser, text).text == text
        }),
{
    let open = seq!['<'] + name;
    let head = open + seq!['>'];
    let inner = seq!['<', '/'] + other + seq!['>'];
    let one = head + before;
    let two = one + inner;
    let three = two + after;
    let content = before + seq!['<', '/'] + other + seq!['>'] + after;

    lemma_open(parser, name);
    law_feed_splits(parser, open, seq!['>']);
    lemma_feed_one(fed(parser, open), '>');
    let p1 = fed(parser, head);
    assert(p1.text =~= head);
    law_feed_splits(parser, head, before);
    lemma_feed_content(p1, name, Seq::empty(), before);
    assert(Seq::<char>::empty() + before =~= before);
    let p2 = fed(parser, one);
    law_feed_splits(parser, one, inner);
    law_other_closing_tags_are_content(p2, name, before, other);
    let p3 = fed(parser, two);
    assert(p3.text =~= two);
    law_feed_splits(parser, two, after);
    lemma_feed_content(p3, name, before + seq!['<', '/'] + other + seq!['>'], after);
    let p4 = fed(parser, three);
    assert(p4.state == (TagState::CollectContent { tag_name: name, content }));
    assert(p4.text =~= three);
    lemma_close(p4, name, content);
    let end = seq!['<', '/'] + name + seq!['>'];
    law_feed_splits(parser, three, end);
    assert(three + end =~= seq!['<'] + name + seq!['>'] + content + seq!['<', '/'] + name + seq![
        '>',
    ]);
}

/// The closing tag of its name completes a tag with the content it has.
proof fn lemma_close(parser: ParserView, name: Seq<char>, content: Seq<char>)
    requires
        parser.state == (TagState::CollectContent { tag_name: name, content }),
        !name.contains('>'),
        !name.contains('/'),
    ensures
        fed(parser, seq!['<', '/'] + name + seq!['>']).state == (TagState::ClosedTag {
            tag_name: name,
            content: Some(content),
        }),
        fed(parser, seq!['<', '/'] + name + seq!['>']).text == parser.text + (seq!['<', '/'] + name
            + seq!['>']),
{
    let turn = seq!['<'];
    let slash = seq!['<'] + seq!['/'];
    let close = slash + name;
    let all = close + seq!['>'];
    assert(all =~= seq!['<', '/'] + name + seq!['>']);
    lemma_feed_one(parser, '<');
    let p1 = fed(parser, turn);
    law_feed_splits(parser, turn, seq!['/']);
    lemma_feed_one(p1, '/');
    let p2 = fed(parser, slash);
    law_feed_splits(parser, slash, name);
    lemma_feed_close_name(p2, name, content, Seq::empty(), name);
    assert(Seq::<char>::empty() + name =~= name);
    let p3 = fed(parser, close);
    law_feed_splits(parser, close, seq!['>']);
    lemma_feed_one(p3, '>');
    assert(fed(parser, all).text =~= parser.text + all);
}

/// Whether a text starts with `<name>`.
pub open spec fn opens_with(text: Seq<char>, name: Seq<char>) -> bool {
    text.len() >= name.len() + 2 && text.take(name.len() as int + 2) == seq!['<'] + name + seq!['>']
}

/// What the text of a tag looks like in each state.
spec fn text_fits(parser: ParserView) -> bool {
    let text = parser.text;
    match parser.state {
        TagState::ExpectTagName => true,
        TagState::OpeningTag { name } => text == seq!['<'] + name && !name.contains('>')
            && !name.contains('/'),
        TagState::SelfClosing { name } => text == seq!['<'] + name + seq!['/'] && !name.contains(
            '>',
        ) && !name.contains('/'),
        TagState::CollectContent { tag_name, .. } => opens_with(text, tag_name)
            && !tag_name.contains('>') && !tag_name.contains('/'),
        TagState::ExpectCloseTag { tag_name, close_name, .. } => {
            &&& opens_with(text, tag_name)
            &&& !tag_name.contains('>')
            &&& !tag_name.contains('/')
            &&& text.len() >= tag_name.len() + 2 + close_name.len()
            &&& text.skip(text.len() - close_name.len()) == close_name
        },
        TagState::ClosedTag { tag_name, content } => {
            &&& !tag_name.contains('>')
            &&& !tag_name.contains('/')
            &&& match content {
                None => text == seq!['<'] + tag_name + seq!['/', '>'],
                Some(_) => {
                    &&& opens_with(text, tag_name)
                    &&& text.len() >= 2 * tag_name.len() + 3
                    &&& text.skip(text.len() - tag_name.len() - 1) == tag_name + seq!['>']
                },
            }
        },
    }
}

/// One more character keeps the text fitting.
proof fn lemma_text_fits(parser: ParserView, ch: char)
    requires
        text_fits(parser),
    ensures
        text_fits(consumed(parser, ch)),
{
    let text = parser.text;
    let longer = text.push(ch);
    match parser.state {
        TagState::OpeningTag { name } => {
            assert(longer =~= seq!['<'] + name + seq![ch]);
            if ch == '>' {
                assert(longer.take(name.len() as int + 2) =~= seq!['<'] + name + seq!['>']);
            } else if ch != '/' {
                let more = name.push(ch);
                assert(longer =~= seq!['<'] + more);
                assert forall|c: char| c == '>' || c == '/' implies !more.contains(c) by {
                    if more.contains(c) {
                        let i = choose|i: int| 0 <= i < more.len() && more[i] == c;
                        assert(i < name.len() ==> name[i] == c);
                    }
                }
            }
        },
        TagState::SelfClosing { name } => {
            assert(longer =~= seq!['<'] + name + seq!['/'] + seq![ch]);
            if ch == '>' {
                assert(longer =~= seq!['<'] + name + seq!['/', '>']);
            }
        },
        TagState::CollectContent { tag_name, .. } => {
            let n = tag_name.len() as int + 2;
            assert(longer.take(n) =~= text.take(n));
            assert(longer.skip(longer.len() as int) =~= Seq::empty());
        },
        TagState::ExpectCloseTag { tag_name, close_name, .. } => {
            let n = tag_name.len() as int + 2;
            assert(longer.take(n) =~= text.take(n));
            assert(longer.skip(longer.len() - close_name.len() - 1) =~= text.skip(
                text.len() - close_name.len(),
            ).push(ch));
            assert(close_name + seq!['>'] =~= close_name.push('>'));
            if close_name.len() == 0 {
                assert(longer.skip(longer.len() as int) =~= close_name);
            }
        },
        _ => {
            assert(seq!['<'] + Seq::<char>::empty() =~= seq!['<']);
        },
    }
}

/// A tag is complete only if it was typed: its text is `<name/>`, or starts
/// with `<name>` and ends with `name>`, and is the end of what was typed.
pub proof fn law_completed_tags_were_typed(s: Seq<char>)
    ensures
        fed(fresh(), s).state matches TagState::ClosedTag { tag_name, content } ==> {
            let text = fed(fresh(), s).text;
            &&& text == s.skip(s.len() - text.len())
            &&& content is None ==> text == seq!['<'] + tag_name + seq!['/', '>']
            &&& content is Some ==> {
                &&& opens_with(text, tag_name)
                &&& text.len() >= 2 * tag_name.len() + 3
                &&& text.skip(text.len() - tag_name.len() - 1) == tag_name + seq!['>']
            }
        },
{
    law_text_is_what_was_typed(s);
    lemma_typed_text_fits(s);
}

/// The text fits after everything that can be typed.
proof fn lemma_typed_text_fits(s: Seq<char>)
    ensures
        text_fits(fed(fresh(), s)),
    decreases s.len(),
{
    if s.len() > 0 {
        lemma_typed_text_fits(s.drop_last());
        lemma_text_fits(fed(fresh(), s.drop_last()), s.last());
    }
}

/// Characters other than `>` extend a closing name that has begun.
proof fn lemma_feed_close_rest(
    parser: ParserView,
    tag_name: Seq<char>,
    content: Seq<char>,
    close_name: Seq<char>,
    s: Seq<char>,
)
    requires
        parser.state == (TagState::ExpectCloseTag { tag_name, content, close_name }),
        !s.contains('>'),
        close_name.len() > 0 || s.len() == 0 || s[0] != '/',
    ensures
        fed(parser, s).state == (TagState::ExpectCloseTag {
            tag_name,
            content,
            close_name: close_name + s,
        }),
        fed(parser, s).text == parser.text + s,
    decreases s.len(),
{
    if s.len() == 0 {
        assert(close_name + s =~= close_name);
        assert(parser.text + s =~= parser.text);
    } else {
        lemma_without(s, '>');
        lemma_feed_close_rest(parser, tag_name, content, close_name, s.drop_last());
        assert((close_name + s.drop_last()).push(s.last()) =~= close_name + s);
        assert((parser.text + s.drop_last()).push(s.last()) =~= parser.text + s);
        if s.len() == 1 {
            assert(s.last() == s[0]);
        }
    }
}

/// `n` slashes.
pub open spec fn slashes(n: nat) -> Seq<char> {
    Seq::new(n, |i: int| '/')
}

/// Slashes before a closing name change nothing.
proof fn lemma_feed_slashes(
    parser: ParserView,
    tag_name: Seq<char>,
    content: Seq<char>,
    n: nat,
)
    requires
        parser.state == (TagState::ExpectCloseTag { tag_name, content, close_name: Seq::empty() }),
    ensures
        fed(parser, slashes(n)).state == parser.state,
        fed(parser, slashes(n)).text == parser.text + slashes(n),
    decreases n,
{
    if n == 0 {
        assert(parser.text + slashes(n) =~= parser.text);
    } else {
        let m = (n - 1) as nat;
        assert(slashes(n).drop_last() =~= slashes(m));
        lemma_feed_slashes(parser, tag_name, content, m);
        assert((parser.text + slashes(m)).push('/') =~= parser.text + slashes(n));
    }
}

/// Inside the content, `<`, any number of slashes, a name and `>` complete the
/// tag if the name is the tag's; with another name they become part of the
/// content, as a closing tag of that name.
pub proof fn law_names_inside_the_content(
    parser: ParserView,
    tag_name: Seq<char>,
    content: Seq<char>,
    n: nat,
    name: Seq<char>,
)
    requires
        parser.state == (TagState::CollectContent { tag_name, content }),
        !name.contains('>'),
        name.len() == 0 || name[0] != '/',
    ensures
        ({
            let typed = seq!['<'] + slashes(n) + name + seq!['>'];
            &&& fed(parser, typed).text == parser.text + typed
            &&& fed(parser, typed).state == if name == tag_name {
                TagState::ClosedTag { tag_name, content: Some(content) }
            } else {
                TagState::CollectContent {
                    tag_name,
                    content: content + seq!['<', '/'] + name + seq!['>'],
                }
            }
        }),
{
    let turn = seq!['<'];
    let slash = turn + slashes(n);
    let close = slash + name;
    let typed = close + seq!['>'];
    lemma_feed_one(parser, '<');
    let p1 = fed(parser, turn);
    law_feed_splits(parser, turn, slashes(n));
    lemma_feed_slashes(p1, tag_name, content, n);
    let p2 = fed(parser, slash);
    law_feed_splits(parser, slash, name);
    lemma_feed_close_rest(p2, tag_name, content, Seq::empty(), name);
    assert(Seq::<char>::empty() + name =~= name);
    let p3 = fed(parser, close);
    law_feed_splits(parser, close, seq!['>']);
    lemma_feed_one(p3, '>');
    assert(fed(parser, typed).text =~= parser.text + typed);
}

/// Inside the content, characters other than `<` are content.
pub proof fn law_content_is_collected(
    parser: ParserView,
    tag_name: Seq<char>,
    content: Seq<char>,
    s: Seq<char>,
)
    requires
        parser.state == (TagState::CollectContent { tag_name, content }),
        !s.contains('<'),
    ensures
        fed(parser, s).state == (TagState::CollectContent { tag_name, content: content + s }),
        fed(parser, s).text == parser.text + s,
{
    lemma_feed_content(parser, tag_name, content, s);
}

/// What a parser hands out is a completed tag: its name, its content and its
/// text as it was typed. Then it has seen nothing. Otherwise it hands out
/// nothing and stays as it is.
pub proof fn law_completed_tags_are_taken(
    before: ParserView,
    after: ParserView,
    tag: Option<(Seq<char>, Option<Seq<char>>, Seq<char>)>,
)
    requires
        is_taken_from(before, after, tag),
    ensures
        before.state matches TagState::ClosedTag { tag_name, content } ==> {
            &&& tag == Some((tag_name, content, before.text))
            &&& after.state is ExpectTagName
            &&& after.text.len() == 0
            &&& after.history.len() == 0
        },
        before.state !is ClosedTag ==> tag is None && after == before,
{
}

} // verus!
