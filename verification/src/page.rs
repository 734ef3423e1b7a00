use vstd::prelude::*;
use build_html::{Container, ContainerType, Html, HtmlContainer, HtmlPage};
use crate::text::{ascii_to_string, chars_of_ascii, dec_digits, lemma_dec_digits_ascii,
    push_decimal};

verus! {

#[verifier::external_type_specification]
#[verifier::external_body]
pub struct ExContainer(Container);

/// The (target, text) pairs of the links a build_html container holds, in the
/// order they were added.
pub uninterp spec fn container_links(c: Container) -> Seq<(Seq<char>, Seq<char>)>;

/// The HTML page that build_html renders around a container of links: a
/// function of the title, the heading level and text, and the links alone.
pub uninterp spec fn listing_page_html(
    title: Seq<char>,
    level: u8,
    heading: Seq<char>,
    links: Seq<(Seq<char>, Seq<char>)>,
) -> Seq<char>;

/// The HTML page that build_html renders around a single paragraph of text: a
/// function of the title, the heading level and text, and the paragraph alone.
pub uninterp spec fn message_page_html(
    title: Seq<char>,
    level: u8,
    heading: Seq<char>,
    message: Seq<char>,
) -> Seq<char>;

/// Relies on build_html::Container::new with the unordered-list tag: a fresh
/// list container holds no links.
#[verifier::external_body]
fn new_link_list() -> (c: Container)
    ensures
        container_links(c) == Seq::<(Seq<char>, Seq<char>)>::empty(),
{
    Container::new(ContainerType::UnorderedList)
}

/// Relies on build_html's HtmlContainer::add_link: it appends one anchor with
/// the given target and text after the links already added, and a container
/// renders its elements in insertion order.
#[verifier::external_body]
fn add_link(c: &mut Container, href: &str, text: &str)
    ensures
        container_links(*final(c)) == container_links(*old(c)).push((href@, text@)),
{
    HtmlContainer::add_link(c, href, text);
}

/// Relies on build_html's HtmlPage builder and Html::to_html_string: the
/// rendered page is determined by the title, the heading level and text, and
/// the links held by the container, in order. The container's links determine
/// its whole content here because verified code can only obtain a container
/// through `new_link_list` and `add_link`, which add nothing but links.
/// build_html renders headings h1 through h6 only and panics on any other
/// level, which the `requires` excludes.
#[verifier::external_body]
fn render_listing_page(title: &str, level: u8, heading: &str, c: Container) -> (r: String)
    requires
        1 <= level <= 6,
    ensures
        r@ == listing_page_html(title@, level, heading@, container_links(c)),
{
    HtmlPage::new().with_title(title).with_header(level, heading).with_container(
        c,
    ).to_html_string()
}

/// Relies on the same build_html builders, with a single paragraph inside a
/// div in place of the link list. As above, build_html panics on a heading
/// level outside 1 through 6, which the `requires` excludes.
#[verifier::external_body]
fn render_message_page(title: &str, level: u8, heading: &str, message: &str) -> (r: String)
    requires
        1 <= level <= 6,
    ensures
        r@ == message_page_html(title@, level, heading@, message@),
{
    HtmlPage::new().with_title(title).with_header(level, heading).with_container(
        Container::new(ContainerType::Div).with_paragraph(message),
    ).to_html_string()
}

/// The bytes of the link target for a capture: `/download/` (the leading
/// literal) followed by the decimal id.
pub open spec fn link_href_bytes(id: nat) -> Seq<u8> {
    seq![47u8, 100u8, 111u8, 119u8, 110u8, 108u8, 111u8, 97u8, 100u8, 47u8] + dec_digits(id)
}

/// The bytes of the link text for a capture: `Download capture #`, the decimal
/// id, ` (`, the decimal payload length, ` bytes)` (the literals spell those
/// three pieces of text).
pub open spec fn link_text_bytes(id: nat, len: nat) -> Seq<u8> {
    seq![68u8, 111u8, 119u8, 110u8, 108u8, 111u8, 97u8, 100u8, 32u8, 99u8, 97u8, 112u8, 116u8,
        117u8, 114u8, 101u8, 32u8, 35u8] + dec_digits(id) + seq![32u8, 40u8] + dec_digits(len)
        + seq![32u8, 98u8, 121u8, 116u8, 101u8, 115u8, 41u8]
}

/// The links of the index page for a listing: one per retained record, in
/// retention order, each leading to the record's download target.
pub open spec fn index_links(entries: Seq<(u64, usize)>) -> Seq<(Seq<char>, Seq<char>)> {
    Seq::new(
        entries.len(),
        |i: int|
            (
                chars_of_ascii(link_href_bytes(entries[i].0 as nat)),
                chars_of_ascii(link_text_bytes(entries[i].0 as nat, entries[i].1 as nat)),
            ),
    )
}

/// The link target for the capture stored under `id`.
fn link_href(id: u64) -> (r: String)
    ensures
        r@ == chars_of_ascii(link_href_bytes(id as nat)),
{
    let mut b: Vec<u8> = Vec::new();
    b.push(47);
    b.push(100);
    b.push(111);
    b.push(119);
    b.push(110);
    b.push(108);
    b.push(111);
    b.push(97);
    b.push(100);
    b.push(47);
    push_decimal(&mut b, id);
    proof {
        lemma_dec_digits_ascii(id as nat);
        assert(b@ =~= link_href_bytes(id as nat));
        let d = dec_digits(id as nat);
        assert forall|i: int| 0 <= i < b@.len() implies #[trigger] b@[i] < 128 by {
            if 10 <= i < 10 + d.len() {
                assert(b@[i] == d[i - 10]);
            }
        }
    }
    ascii_to_string(&b)
}

/// The link text for the capture stored under `id` with a payload of `len` bytes.
fn link_text(id: u64, len: usize) -> (r: String)
    ensures
        r@ == chars_of_ascii(link_text_bytes(id as nat, len as nat)),
{
    let mut b: Vec<u8> = Vec::new();
    b.push(68);
    b.push(111);
    b.push(119);
    b.push(110);
    b.push(108);
    b.push(111);
    b.push(97);
    b.push(100);
    b.push(32);
    b.push(99);
    b.push(97);
    b.push(112);
    b.push(116);
    b.push(117);
    b.push(114);
    b.push(101);
    b.push(32);
    b.push(35);
    push_decimal(&mut b, id);
    b.push(32);
    b.push(40);
    push_decimal(&mut b, len as u64);
    b.push(32);
    b.push(98);
    b.push(121);
    b.push(116);
    b.push(101);
    b.push(115);
    b.push(41);
    proof {
        lemma_dec_digits_ascii(id as nat);
        lemma_dec_digits_ascii(len as nat);
        assert(b@ =~= link_text_bytes(id as nat, len as nat));
        let d1 = dec_digits(id as nat);
        let d2 = dec_digits(len as nat);
        assert forall|i: int| 0 <= i < b@.len() implies #[trigger] b@[i] < 128 by {
            if 18 <= i < 18 + d1.len() {
                assert(b@[i] == d1[i - 18]);
            }
            if 18 + d1.len() + 2 <= i < 18 + d1.len() + 2 + d2.len() {
                assert(b@[i] == d2[i - (18 + d1.len() + 2)]);
            }
        }
    }
    ascii_to_string(&b)
}

/// Renders the index page over a listing of the store: a page with a plain
/// message when nothing has been captured, else a page with one download link
/// per retained record, in retention order.
pub fn render_index(entries: &Vec<(u64, usize)>) -> (r: String)
    ensures
        entries@.len() == 0 ==> r@ == message_page_html(
            "HTTP Captures"@,
            1,
            "HTTP Captures"@,
            "No captures, go to /capture to capture something"@,
        ),
        entries@.len() > 0 ==> r@ == listing_page_html(
            "HTTP Captures"@,
            1,
            "HTTP Captures"@,
            index_links(entries@),
        ),
{
    if entries.len() == 0 {
        render_message_page(
            "HTTP Captures",
            1,
            "HTTP Captures",
            "No captures, go to /capture to capture something",
        )
    } else {
        let mut list = new_link_list();
        let mut i: usize = 0;
        while i < entries.len()
            invariant
                i <= entries@.len(),
                container_links(list) == index_links(entries@).take(i as int),
            decreases entries@.len() - i,
        {
            let (id, len) = entries[i];
            let href = link_href(id);
            let text = link_text(id, len);
            add_link(&mut list, href.as_str(), text.as_str());
            proof {
                assert((href@, text@) == index_links(entries@)[i as int]);
                assert(index_links(entries@).take(i as int + 1) =~= index_links(
                    entries@,
                ).take(i as int).push(index_links(entries@)[i as int]));
            }
            i += 1;
        }
        proof {
            assert(index_links(entries@).take(entries@.len() as int) =~= index_links(entries@));
        }
        render_listing_page("HTTP Captures", 1, "HTTP Captures", list)
    }
}

} // verus!
