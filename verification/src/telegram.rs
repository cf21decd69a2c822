//! The chat-facing side of the bot. The first-generation crates.io bot's
//! reply logic lives here: recognizing a `/search` message, rendering crate
//! records as an escaped HTML reply, and the entry and byte caps of that
//! reply. Its long-poll loop, the HTTP calls and the stats tracking are
//! transport work and stay with the caller. The current bot's dispatch and
//! rendering live in [`bot`]; the escaping and markup primitives in [`html`].

use vstd::prelude::*;

pub mod bot;
pub mod html;

verus! {

use crate::crates::EncodableCrate;
use crate::telegram::bot::{
    MAX_MESSAGE_LENGTH,
    nonempty_text,
    opt_nonempty,
    trim_spec,
    trim_text,
};
use crate::telegram::html::{byte_len, escape_text, html_escape, lemma_encode_utf8_concat};

/// The block rendered for one crate record: the name in bold, the repository
/// link (its address doubling as the label), and the description, each on
/// its own line and each escaped.
pub open spec fn crate_message(
    name: Option<Seq<char>>,
    url: Option<Seq<char>>,
    desc: Option<Seq<char>>,
) -> Seq<char> {
    (match name {
        Some(n) => "<b>"@ + escape_text(n) + "</b>\n"@,
        None => Seq::<char>::empty(),
    }) + (match url {
        Some(u) => "<a href=\""@ + escape_text(u) + "\">"@ + escape_text(u) + "</a>\n"@,
        None => Seq::<char>::empty(),
    }) + (match desc {
        Some(d) => escape_text(d) + "\n"@,
        None => Seq::<char>::empty(),
    })
}

/// Collects the parts of one crate's block.
pub struct HtmlMessageBuilder<'a> {
    name: Option<&'a str>,
    url: Option<&'a str>,
    description: Option<&'a str>,
}

impl<'a> HtmlMessageBuilder<'a> {
    pub closed spec fn spec_name(&self) -> Option<Seq<char>> {
        self.name.deep_view()
    }

    pub closed spec fn spec_url(&self) -> Option<Seq<char>> {
        self.url.deep_view()
    }

    pub closed spec fn spec_description(&self) -> Option<Seq<char>> {
        self.description.deep_view()
    }

    pub fn new() -> (b: HtmlMessageBuilder<'a>)
        ensures
            b.spec_name() is None,
            b.spec_url() is None,
            b.spec_description() is None,
    {
        HtmlMessageBuilder { name: None, url: None, description: None }
    }

    pub fn name(&mut self, n: &'a str)
        ensures
            final(self).spec_name() == Some(n@),
            final(self).spec_url() == old(self).spec_url(),
            final(self).spec_description() == old(self).spec_description(),
    {
        self.name = Some(n);
    }

    pub fn url(&mut self, u: &'a str)
        ensures
            final(self).spec_url() == Some(u@),
            final(self).spec_name() == old(self).spec_name(),
            final(self).spec_description() == old(self).spec_description(),
    {
        self.url = Some(u);
    }

    pub fn description(&mut self, d: &'a str)
        ensures
            final(self).spec_description() == Some(d@),
            final(self).spec_name() == old(self).spec_name(),
            final(self).spec_url() == old(self).spec_url(),
    {
        self.description = Some(d);
    }

    /// Renders the collected parts as one block.
    pub fn build(&self) -> (r: String)
        ensures
            r@ == crate_message(self.spec_name(), self.spec_url(), self.spec_description()),
    {
        let mut msg = String::new();

        if let Some(name) = self.name {
            let esc = html_escape(name);
            msg.append("<b>");
            msg.append(esc.as_str());
            msg.append("</b>\n");
        }

        if let Some(url) = self.url {
            let esc = html_escape(url);
            msg.append("<a href=\"");
            msg.append(esc.as_str());
            msg.append("\">");
            msg.append(esc.as_str());
            msg.append("</a>\n");
        }

        if let Some(description) = self.description {
            let esc = html_escape(description);
            msg.append(esc.as_str());
            msg.append("\n");
        }

        proof {
            assert(msg@ =~= crate_message(
                self.spec_name(),
                self.spec_url(),
                self.spec_description(),
            ));
        }
        msg
    }
}

/// Renders one block from a crate's fields; empty texts stand for absent
/// fields and are left out.
pub fn render_html_message(name: &str, description: &str, url: &str) -> (r: String)
    ensures
        r@ == crate_message(Some(name@), nonempty_text(url@), nonempty_text(description@)),
{
    let mut msg_builder = HtmlMessageBuilder::new();
    msg_builder.name(name);

    if !description.is_empty() {
        msg_builder.description(description);
    }

    if !url.is_empty() {
        msg_builder.url(url);
    }

    msg_builder.build()
}

/// The block for one crate record.
pub open spec fn crate_block(k: EncodableCrate) -> Seq<char> {
    crate_message(
        Some(k.name@),
        opt_nonempty(k.repository.deep_view()),
        opt_nonempty(k.description.deep_view()),
    )
}

/// The block for one crate record: name in bold, then the optional
/// repository link and description.
pub fn prepare_message_text(krate: &EncodableCrate) -> (r: String)
    ensures
        r@ == crate_block(*krate),
{
    proof {
        reveal_strlit("");
    }
    let description: &str = match &krate.description {
        Some(desc) => desc.as_str(),
        None => "",
    };
    let url: &str = match &krate.repository {
        Some(u) => u.as_str(),
        None => "",
    };
    render_html_message(krate.name.as_str(), description, url)
}

/// The reply text for a crate list: blocks are appended in order until
/// either `budget` entries have been rendered or appending the next block
/// would make the reply reach `MAX_MESSAGE_LENGTH` bytes; that block and all
/// later ones are discarded whole.
pub open spec fn take_crate_blocks(ks: Seq<EncodableCrate>, budget: int, acc: int) -> Seq<char>
    decreases ks.len(),
{
    if ks.len() == 0 || budget <= 0 {
        Seq::empty()
    } else {
        let block = crate_block(ks[0]);
        let bl = vstd::utf8::encode_utf8(block).len() as int;
        if acc + bl >= MAX_MESSAGE_LENGTH as int {
            Seq::empty()
        } else {
            block + take_crate_blocks(ks.drop_first(), budget - 1, acc + bl)
        }
    }
}

/// The full reply for a crate search: at most fifty entries, fewer when the
/// byte cap cuts the list short.
pub open spec fn crates_message(ks: Seq<EncodableCrate>) -> Seq<char> {
    take_crate_blocks(ks, 50, 0)
}

/// Builds the reply for a crate search result, enforcing the entry cap and
/// the byte-length cap.
pub fn build_crates_message(crates: &Vec<EncodableCrate>) -> (r: String)
    ensures
        r@ == crates_message(crates@),
        vstd::utf8::encode_utf8(r@).len() < MAX_MESSAGE_LENGTH as int,
{
    let mut msg = String::new();
    let count: usize = if crates.len() < 50 {
        crates.len()
    } else {
        50
    };
    let mut i: usize = 0;
    proof {
        assert(vstd::utf8::encode_utf8(msg@) =~= Seq::<u8>::empty());
        assert(crates@.skip(0) =~= crates@);
        assert(msg@ + take_crate_blocks(crates@, 50, 0) =~= take_crate_blocks(crates@, 50, 0));
    }
    loop
        invariant
            i <= count,
            count as int == (if crates@.len() < 50 {
                crates@.len() as int
            } else {
                50
            }),
            vstd::utf8::encode_utf8(msg@).len() < MAX_MESSAGE_LENGTH as int,
            take_crate_blocks(crates@, 50, 0) == msg@ + take_crate_blocks(
                crates@.skip(i as int),
                50 - i as int,
                vstd::utf8::encode_utf8(msg@).len() as int,
            ),
        ensures
            vstd::utf8::encode_utf8(msg@).len() < MAX_MESSAGE_LENGTH as int,
            msg@ == take_crate_blocks(crates@, 50, 0),
        decreases count - i,
    {
        if i >= count {
            proof {
                if (count as int) < 50 {
                    assert(crates@.skip(i as int) =~= Seq::<EncodableCrate>::empty());
                }
                assert(take_crate_blocks(
                    crates@.skip(i as int),
                    50 - i as int,
                    vstd::utf8::encode_utf8(msg@).len() as int,
                ) == Seq::<char>::empty());
                assert(msg@ + Seq::<char>::empty() =~= msg@);
            }
            break ;
        }
        let msg_part = prepare_message_text(&crates[i]);
        let part_len = byte_len(msg_part.as_str());
        let msg_len = byte_len(msg.as_str());
        proof {
            assert(crates@.skip(i as int)[0] == crates@[i as int]);
            assert(crates@.skip(i as int).drop_first() =~= crates@.skip(i + 1));
        }
        if part_len >= MAX_MESSAGE_LENGTH - msg_len {
            proof {
                assert(take_crate_blocks(
                    crates@.skip(i as int),
                    50 - i as int,
                    vstd::utf8::encode_utf8(msg@).len() as int,
                ) == Seq::<char>::empty());
                assert(msg@ + Seq::<char>::empty() =~= msg@);
            }
            break ;
        }
        let ghost old_msg = msg@;
        msg.append(msg_part.as_str());
        proof {
            lemma_encode_utf8_concat(old_msg, msg_part@);
            assert(old_msg + take_crate_blocks(
                crates@.skip(i as int),
                50 - i as int,
                vstd::utf8::encode_utf8(old_msg).len() as int,
            ) =~= msg@ + take_crate_blocks(
                crates@.skip(i + 1),
                50 - (i + 1),
                vstd::utf8::encode_utf8(msg@).len() as int,
            ));
        }
        i = i + 1;
    }
    msg
}

/// Strips every repetition of the `/search` prefix.
pub open spec fn strip_search_prefix(t: Seq<char>) -> Seq<char>
    decreases t.len(),
{
    if t.len() >= 7 && t.take(7) == "/search"@ {
        strip_search_prefix(t.skip(7))
    } else {
        t
    }
}

/// What the first-generation receive loop recognizes: a message starting
/// with `/search` queries for the rest of the text, with every leading
/// repetition of `/search` dropped and whitespace trimmed; any other
/// message is ignored.
pub open spec fn search_query_spec(t: Seq<char>) -> Option<Seq<char>> {
    if t.len() >= 7 && t.take(7) == "/search"@ {
        Some(trim_spec(strip_search_prefix(t)))
    } else {
        None
    }
}

/// Whether the text starts with `/search`.
fn has_search_prefix(s: &str) -> (b: bool)
    ensures
        b == (s@.len() >= 7 && s@.take(7) == "/search"@),
{
    proof {
        reveal_strlit("/search");
    }
    let len = s.unicode_len();
    if len < 7 {
        return false;
    }
    let prefix = "/search";
    let mut i: usize = 0;
    loop
        invariant
            i <= 7,
            len == s@.len(),
            len >= 7,
            prefix@ == "/search"@,
            prefix@.len() == 7,
            forall|j: int| 0 <= j < i ==> s@[j] == prefix@[j],
        ensures
            (i == 7 && forall|j: int| 0 <= j < 7 ==> s@[j] == prefix@[j]) || (i < 7 && s@[i as int]
                != prefix@[i as int]),
        decreases 7 - i,
    {
        if i >= 7 {
            break ;
        }
        if s.get_char(i) != prefix.get_char(i) {
            break ;
        }
        i = i + 1;
    }
    if i == 7 {
        proof {
            assert(s@.take(7) =~= "/search"@);
        }
        true
    } else {
        proof {
            assert(s@.take(7)[i as int] == s@[i as int]);
        }
        false
    }
}

/// The query carried by a `/search` message, or `None` for any other text.
pub fn search_query(text: &str) -> (r: Option<String>)
    ensures
        match search_query_spec(text@) {
            Some(q) => r matches Some(s) && s@ == q,
            None => r is None,
        },
{
    if !has_search_prefix(text) {
        return None;
    }
    let mut s = String::from_str(text);
    loop
        invariant
            strip_search_prefix(text@) == strip_search_prefix(s@),
        ensures
            s@ == strip_search_prefix(text@),
        decreases s@.len(),
    {
        if !has_search_prefix(s.as_str()) {
            break ;
        }
        let slen = s.as_str().unicode_len();
        let stripped = String::from_str(s.as_str().substring_char(7, slen));
        proof {
            assert(stripped@ =~= s@.skip(7));
        }
        s = stripped;
    }
    Some(trim_text(s.as_str()))
}

} // verus!