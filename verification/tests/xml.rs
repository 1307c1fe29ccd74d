use xmip_core_transport_peppol::text::chars_of;
use xmip_core_transport_peppol::xml::{
    attribute_exec, closing_exec, element_exec, escape_exec, name_end_exec, unescape_exec,
};

fn chars(s: &str) -> Vec<char> {
    s.chars().collect()
}

#[test]
fn text_escapes_by_the_five_entities_and_reads_back() {
    assert_eq!(escape_exec("a<b>&\"c'"), "a&lt;b&gt;&amp;&quot;c&apos;");
    assert_eq!(escape_exec("plain é"), "plain é");
    let escaped = chars("x &lt;&gt;&amp;&quot;&apos; &nbsp; &amp");
    assert_eq!(unescape_exec(&escaped, 0, escaped.len()), "x <>&\"' &nbsp; &amp");
    let round = chars(&escape_exec("<a href=\"x\">&'</a>"));
    assert_eq!(unescape_exec(&round, 0, round.len()), "<a href=\"x\">&'</a>");
    assert_eq!(chars_of("añb"), vec!['a', 'ñ', 'b']);
}

#[test]
fn elements_are_found_by_local_name_whatever_their_prefix() {
    let s = chars("<r><ns0:Item k=\"1\">one</ns0:Item><Item>two</Item><sh:Other/></r>");
    let name = chars("Item");
    let (c, e) = element_exec(&s, 0, s.len(), &name).expect("found");
    assert_eq!(s[c..e].iter().collect::<String>(), "one");
    let (c2, e2) = element_exec(&s, e, s.len(), &name).expect("second");
    assert_eq!(s[c2..e2].iter().collect::<String>(), "two");
    assert!(element_exec(&s, 0, s.len(), &chars("Other")).is_none());
    assert!(element_exec(&s, 0, s.len(), &chars("tem")).is_none());
    let (v, w) = attribute_exec(&s, 0, s.len(), &name, &chars("k")).expect("attribute");
    assert_eq!(s[v..w].iter().collect::<String>(), "1");
    assert!(attribute_exec(&s, 0, s.len(), &name, &chars("j")).is_none());
    assert_eq!(name_end_exec(&s, 4, s.len()), 12);
    assert_eq!(closing_exec(&s, 3, 12).iter().collect::<String>(), "</ns0:Item>");
}
