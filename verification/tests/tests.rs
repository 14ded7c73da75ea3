use std::str::from_utf8;
use xmlwriter::{Indent, Options, XmlWriter};

#[test]
fn write_element_01() {
    let mut w = XmlWriter::new(Vec::<u8>::new(), Options::default());
    w.start_element("svg");
    w.end_element();
    assert_eq!(from_utf8(&w.end_document()).unwrap(), "<svg/>\n");
}

#[test]
fn write_element_02() {
    let mut w = XmlWriter::new(Vec::<u8>::new(), Options::default());
    w.start_element("svg");
    w.start_element("rect");
    w.end_element();
    w.end_element();
    assert_eq!(
        from_utf8(&w.end_document()).unwrap(),
        r#"<svg>
    <rect/>
</svg>
"#
    );
}

#[test]
fn write_element_03() {
    let mut w = XmlWriter::new(Vec::<u8>::new(), Options::default());
    w.start_element("svg");
    w.end_element();
    w.end_element(); // Closing more elements than were opened is a no-op.
    assert_eq!(from_utf8(&w.end_document()).unwrap(), "<svg/>\n");
}

#[test]
fn write_element_05() {
    let mut w = XmlWriter::new(Vec::<u8>::new(), Options::default());
    w.start_element("svg");
    // end_document() closes the element automatically.
    assert_eq!(from_utf8(&w.end_document()).unwrap(), "<svg/>\n");
}

#[test]
fn write_element_06() {
    let mut w = XmlWriter::new(Vec::<u8>::new(), Options::default());
    w.start_element("svg");
    w.start_element("rect");
    w.start_element("rect");
    w.start_element("rect");
    w.start_element("rect");
    w.start_element("rect");
    assert_eq!(
        from_utf8(&w.end_document()).unwrap(),
        r#"<svg>
    <rect>
        <rect>
            <rect>
                <rect>
                    <rect/>
                </rect>
            </rect>
        </rect>
    </rect>
</svg>
"#
    );
}

#[test]
fn write_attribute_02() {
    let mut w = XmlWriter::new(Vec::<u8>::new(), Options::default());
    w.start_element("svg");
    w.write_attribute("id", "q");
    w.end_element();
    assert_eq!(from_utf8(&w.end_document()).unwrap(), "<svg id=\"q\"/>\n");
}

#[test]
fn write_attribute_03() {
    let mut w = XmlWriter::new(Vec::<u8>::new(), Options::default());
    w.start_element("svg");
    w.write_attribute("id", "\"");
    w.end_element();
    assert_eq!(from_utf8(&w.end_document()).unwrap(), "<svg id=\"&quot;\"/>\n");
}

#[test]
fn write_attribute_04() {
    let opt = Options {
        use_single_quote: true,
        ..Options::default()
    };

    let mut w = XmlWriter::new(Vec::<u8>::new(), opt);
    w.start_element("svg");
    w.write_attribute("id", "'");
    w.end_element();
    assert_eq!(from_utf8(&w.end_document()).unwrap(), "<svg id='&apos;'/>\n");
}

#[test]
fn write_attribute_05() {
    let opt = Options {
        use_single_quote: true,
        ..Options::default()
    };

    let mut w = XmlWriter::new(Vec::<u8>::new(), opt);
    w.start_element("svg");
    w.write_attribute("id", "'''\"'\"\"'");
    w.end_element();
    // Only single quotes are escaped when single quotes surround the value;
    // double quotes are left alone.
    assert_eq!(
        from_utf8(&w.end_document()).unwrap(),
        "<svg id='&apos;&apos;&apos;\"&apos;\"\"&apos;'/>\n"
    );
}

// Same as write_attribute_05(), but making sure single quotes aren't escaped
// when using double quotes.
#[test]
fn write_attribute_06() {
    let opt = Options {
        use_single_quote: false,
        ..Options::default()
    };

    let mut w = XmlWriter::new(Vec::<u8>::new(), opt);
    w.start_element("svg");
    w.write_attribute("id", "'''\"'\"\"'");
    w.end_element();
    assert_eq!(
        from_utf8(&w.end_document()).unwrap(),
        "<svg id=\"'''&quot;'&quot;&quot;'\"/>\n"
    );
}

#[test]
fn write_attribute_07() {
    let opt = Options {
        use_single_quote: true,
        ..Options::default()
    };

    let mut w = XmlWriter::new(Vec::<u8>::new(), opt);
    w.start_element("svg");
    w.write_attribute("id", "'text'");
    w.end_element();
    assert_eq!(from_utf8(&w.end_document()).unwrap(), "<svg id='&apos;text&apos;'/>\n");
}

#[test]
fn write_attribute_08() {
    let mut w = XmlWriter::new(Vec::<u8>::new(), Options::default());
    w.start_element("svg");
    w.write_attribute("x", &5.to_string());
    w.end_element();
    assert_eq!(from_utf8(&w.end_document()).unwrap(), "<svg x=\"5\"/>\n");
}

#[test]
fn write_attribute_09() {
    let mut w = XmlWriter::new(Vec::<u8>::new(), Options::default());
    w.start_element("foo");
    w.write_attribute_raw("x", br#"&&"''"<>><>"#);
    w.end_element();
    assert_eq!(
        from_utf8(&w.end_document()).unwrap(),
        // It is invalid XML if you do that, but it'd be your fault then :)
        r#"<foo x="&&"''"<>><>"/>
"#
    );
}

#[test]
fn write_declaration_01() {
    let mut w = XmlWriter::new(Vec::<u8>::new(), Options::default());
    w.write_declaration();
    assert_eq!(
        from_utf8(&w.end_document()).unwrap(),
        "<?xml version=\"1.0\" encoding=\"UTF-8\" standalone=\"no\"?>\n"
    );
}

#[test]
fn write_single_quote_01() {
    let opt = Options {
        use_single_quote: true,
        ..Options::default()
    };

    let mut w = XmlWriter::new(Vec::<u8>::new(), opt);
    w.write_declaration();
    assert_eq!(
        from_utf8(&w.end_document()).unwrap(),
        "<?xml version='1.0' encoding='UTF-8' standalone='no'?>\n"
    );
}

#[test]
fn write_single_quote_02() {
    let opt = Options {
        use_single_quote: true,
        ..Options::default()
    };

    let mut w = XmlWriter::new(Vec::<u8>::new(), opt);
    w.start_element("p");
    w.write_attribute("a", "b");
    w.end_element();
    assert_eq!(from_utf8(&w.end_document()).unwrap(), "<p a='b'/>\n");
}

#[test]
fn write_comment_01() {
    let mut w = XmlWriter::new(Vec::<u8>::new(), Options::default());
    w.write_comment("test");
    w.start_element("svg");
    assert_eq!(
        from_utf8(&w.end_document()).unwrap(),
        r#"<!--test-->
<svg/>
"#
    );
}

#[test]
fn write_comment_02() {
    let mut w = XmlWriter::new(Vec::<u8>::new(), Options::default());
    w.start_element("svg");
    w.write_comment("test");
    assert_eq!(
        from_utf8(&w.end_document()).unwrap(),
        r#"<svg>
    <!--test-->
</svg>
"#
    );
}

#[test]
fn write_comment_03() {
    let mut w = XmlWriter::new(Vec::<u8>::new(), Options::default());
    w.write_comment("test");
    w.start_element("svg");
    w.write_comment("test");
    assert_eq!(
        from_utf8(&w.end_document()).unwrap(),
        r#"<!--test-->
<svg>
    <!--test-->
</svg>
"#
    );
}

#[test]
fn write_comment_04() {
    let mut w = XmlWriter::new(Vec::<u8>::new(), Options::default());
    w.write_comment("test");
    w.start_element("svg");
    w.start_element("rect");
    w.write_comment("test");
    assert_eq!(
        from_utf8(&w.end_document()).unwrap(),
        r#"<!--test-->
<svg>
    <rect>
        <!--test-->
    </rect>
</svg>
"#
    );
}

#[test]
fn write_comment_05() {
    let mut w = XmlWriter::new(Vec::<u8>::new(), Options::default());
    w.write_comment("test");
    w.start_element("svg");
    w.write_comment("test");
    w.start_element("rect");
    w.end_element();
    assert_eq!(
        from_utf8(&w.end_document()).unwrap(),
        r#"<!--test-->
<svg>
    <!--test-->
    <rect/>
</svg>
"#
    );
}

#[test]
fn write_comment_06() {
    let mut w = XmlWriter::new(Vec::<u8>::new(), Options::default());
    w.write_comment("test");
    w.start_element("svg");
    w.start_element("rect");
    w.end_element();
    w.write_comment("test");
    assert_eq!(
        from_utf8(&w.end_document()).unwrap(),
        r#"<!--test-->
<svg>
    <rect/>
    <!--test-->
</svg>
"#
    );
}

#[test]
fn write_comment_07() {
    let mut w = XmlWriter::new(Vec::<u8>::new(), Options::default());
    w.start_element("svg");
    w.end_element();
    w.write_comment("test");
    assert_eq!(
        from_utf8(&w.end_document()).unwrap(),
        r#"<svg/>
<!--test-->
"#
    );
}

#[test]
fn write_comment_08() {
    let mut w = XmlWriter::new(Vec::<u8>::new(), Options::default());
    w.write_comment("test");
    w.write_comment("test");
    w.write_comment("test");
    assert_eq!(
        from_utf8(&w.end_document()).unwrap(),
        r#"<!--test-->
<!--test-->
<!--test-->
"#
    );
}

#[test]
fn write_text_04() {
    let mut w = XmlWriter::new(Vec::<u8>::new(), Options::default());
    w.start_element("p");
    w.write_text("text");
    w.write_text("text");
    assert_eq!(
        from_utf8(&w.end_document()).unwrap(),
        r#"<p>
    text
    text
</p>
"#
    );
}

#[test]
fn write_text_05() {
    let mut w = XmlWriter::new(Vec::<u8>::new(), Options::default());
    w.start_element("p");
    w.write_text("text");
    assert_eq!(
        from_utf8(&w.end_document()).unwrap(),
        r#"<p>
    text
</p>
"#
    );
}

#[test]
fn write_text_06() {
    let mut w = XmlWriter::new(Vec::<u8>::new(), Options::default());
    w.start_element("p");
    w.write_text("text");
    w.start_element("p");
    w.write_text("text");
    assert_eq!(
        from_utf8(&w.end_document()).unwrap(),
        r#"<p>
    text
    <p>
        text
    </p>
</p>
"#
    );
}

#[test]
fn write_text_07() {
    let mut w = XmlWriter::new(Vec::<u8>::new(), Options::default());
    w.start_element("div");
    w.start_element("p");
    w.write_text("text");
    w.start_element("p");
    w.write_text("text");
    assert_eq!(
        from_utf8(&w.end_document()).unwrap(),
        r#"<div>
    <p>
        text
        <p>
            text
        </p>
    </p>
</div>
"#
    );
}

#[test]
fn write_text_08() {
    let mut w = XmlWriter::new(Vec::<u8>::new(), Options::default());
    w.start_element("p");
    w.write_text("<");
    assert_eq!(
        from_utf8(&w.end_document()).unwrap(),
        r#"<p>
    &lt;
</p>
"#
    );
}

#[test]
fn write_text_09() {
    let mut w = XmlWriter::new(Vec::<u8>::new(), Options::default());
    w.start_element("p");
    w.write_text("<&>");
    assert_eq!(
        from_utf8(&w.end_document()).unwrap(),
        r#"<p>
    &lt;&amp;&gt;
</p>
"#
    );
}

#[test]
fn write_text_10() {
    let mut w = XmlWriter::new(Vec::<u8>::new(), Options::default());
    w.start_element("p");
    w.write_text("&lt;");
    assert_eq!(
        from_utf8(&w.end_document()).unwrap(),
        r#"<p>
    &amp;lt;
</p>
"#
    );
}

#[test]
fn write_text_11() {
    let mut w = XmlWriter::new(Vec::<u8>::new(), Options::default());
    w.start_element("p");
    w.write_text("text");
    w.start_element("p");
    w.end_element();
    w.write_text("text");
    assert_eq!(
        from_utf8(&w.end_document()).unwrap(),
        r#"<p>
    text
    <p/>
    text
</p>
"#
    );
}

#[test]
fn write_text_12() {
    let mut w = XmlWriter::new(Vec::<u8>::new(), Options::default());
    w.start_element("p");
    w.write_attribute("att", "fooo&bar&&&&amp;&amp;&baz&&&");
    w.write_text("fooo&bar&&&&amp;&amp;&baz&&&");
    assert_eq!(
        from_utf8(&w.end_document()).unwrap(),
        r#"<p att="fooo&amp;bar&amp;&amp;&amp;&amp;amp;&amp;amp;&amp;baz&amp;&amp;&amp;">
    fooo&amp;bar&amp;&amp;&amp;&amp;amp;&amp;amp;&amp;baz&amp;&amp;&amp;
</p>
"#
    );
}

#[test]
fn write_text_cdata() {
    let mut w = XmlWriter::new(Vec::<u8>::new(), Options::default());
    w.start_element("script");
    w.write_cdata_text("function cmp(a,b) { return (a<b)?-1:(a>b)?1:0; }");
    assert_eq!(
        from_utf8(&w.end_document()).unwrap(),
        "<script><![CDATA[
    function cmp(a,b) { return (a<b)?-1:(a>b)?1:0; }
]]></script>
"
    );
}

#[test]
fn write_preserve_text_01() {
    let mut w = XmlWriter::new(Vec::<u8>::new(), Options::default());
    w.set_preserve_whitespaces(true);
    w.start_element("p");
    w.write_text("text");
    w.start_element("p");
    w.end_element();
    w.write_text("text");
    assert_eq!(from_utf8(&w.end_document()).unwrap(), "<p>text<p/>text</p>");
}

#[test]
fn write_preserve_text_02() {
    let mut w = XmlWriter::new(Vec::<u8>::new(), Options::default());
    w.start_element("p");
    w.start_element("p");
    w.set_preserve_whitespaces(true);
    w.write_text("text");
    w.start_element("p");
    w.end_element();
    w.write_text("text");
    w.end_element();
    w.set_preserve_whitespaces(false);
    assert_eq!(
        from_utf8(&w.end_document()).unwrap(),
        r#"<p>
    <p>text<p/>text</p>
</p>
"#
    );
}

#[test]
fn attrs_indent_01() {
    let opt = Options {
        attributes_indent: Indent::Spaces(2),
        ..Options::default()
    };

    let mut w = XmlWriter::new(Vec::<u8>::new(), opt);
    w.start_element("rect");
    w.write_attribute("x", "5");
    w.start_element("rect");
    w.write_attribute("x", "10");
    w.write_attribute("y", "15");
    assert_eq!(
        from_utf8(&w.end_document()).unwrap(),
        r#"<rect
  x="5">
    <rect
      x="10"
      y="15"/>
</rect>
"#
    );
}

// Escaping scans bytes, so a cut point must never fall inside a multi-byte
// codepoint.
#[test]
fn multibytes_escaping() {
    let mut w = XmlWriter::new(Vec::<u8>::new(), Options::default());
    w.start_element("test");
    w.write_attribute("foo", "aaa&bbb<ccc•&•>&•");
    w.write_attribute_fmt("bar", &format!("aaa&bbb<ccc{}&•>&•", '•'));
    w.write_text("aaa&bbb<ccc•&•>&•");
    w.write_text_fmt(&format!("aaa&bbb<ccc{}&•>&•", '•'));

    assert_eq!(
        from_utf8(&w.end_document()).unwrap(),
        r#"<test foo="aaa&amp;bbb&lt;ccc•&amp;•&gt;&amp;•" bar="aaa&amp;bbb&lt;ccc•&amp;•&gt;&amp;•">
    aaa&amp;bbb&lt;ccc•&amp;•&gt;&amp;•
    aaa&amp;bbb&lt;ccc•&amp;•&gt;&amp;•
</test>
"#
    );
}

#[test]
fn disabled_self_close() {
    let opts = Options {
        enable_self_closing: false,
        ..Options::default()
    };
    let mut w = XmlWriter::new(Vec::<u8>::new(), opts);
    w.start_element("empty1");
    w.end_element();
    w.start_element("wrapper");
    w.start_element("empty2");
    w.end_element();
    w.end_element();

    assert_eq!(
        from_utf8(&w.end_document()).unwrap(),
        r#"<empty1>
</empty1>
<wrapper>
    <empty2>
    </empty2>
</wrapper>
"#
    );
}

// The writer appends to whatever the buffer already holds and hands the same
// buffer back on finalization.
#[test]
fn writer_appends_to_given_buffer() {
    let mut w = XmlWriter::new(b"prefix:".to_vec(), Options::default());
    w.start_element("x");
    assert_eq!(from_utf8(&w.end_document()).unwrap(), "prefix:<x/>\n");
}

// With indention disabled there are no line breaks at all, not even the
// trailing one.
#[test]
fn indent_off_writes_no_whitespace() {
    let opt = Options {
        indent: Indent::Off,
        ..Options::default()
    };
    let mut w = XmlWriter::new(Vec::<u8>::new(), opt);
    w.start_element("svg");
    w.start_element("rect");
    w.write_attribute("fill", "red");
    w.end_element();
    w.end_element();
    assert_eq!(from_utf8(&w.end_document()).unwrap(), "<svg><rect fill=\"red\"/></svg>");
}

#[test]
fn tabs_indent() {
    let opt = Options {
        indent: Indent::Tabs,
        ..Options::default()
    };
    let mut w = XmlWriter::new(Vec::<u8>::new(), opt);
    w.start_element("a");
    w.start_element("b");
    w.write_text("t");
    assert_eq!(from_utf8(&w.end_document()).unwrap(), "<a>\n\t<b>\n\t\tt\n\t</b>\n</a>\n");
}

#[test]
fn zero_spaces_indent_keeps_line_breaks() {
    let opt = Options {
        indent: Indent::Spaces(0),
        ..Options::default()
    };
    let mut w = XmlWriter::new(Vec::<u8>::new(), opt);
    w.start_element("a");
    w.start_element("b");
    w.end_element();
    assert_eq!(from_utf8(&w.end_document()).unwrap(), "<a>\n<b/>\n</a>\n");
}

// Comment content passes through verbatim: even a double hyphen is kept.
#[test]
fn comment_double_hyphen_is_kept() {
    let mut w = XmlWriter::new(Vec::<u8>::new(), Options::default());
    w.write_comment("a--b&<>");
    assert_eq!(from_utf8(&w.end_document()).unwrap(), "<!--a--b&<>-->\n");
}

// Consecutive CDATA writes to the same node are merged into one section.
#[test]
fn consecutive_cdata_writes_share_a_section() {
    let mut w = XmlWriter::new(Vec::<u8>::new(), Options::default());
    w.start_element("s");
    w.write_cdata_text("one");
    w.write_cdata_text("two");
    assert_eq!(
        from_utf8(&w.end_document()).unwrap(),
        "<s><![CDATA[\n    one\n    two\n]]></s>\n"
    );
}

// The guard for the reserved CDATA terminator, which write_cdata_text's
// precondition forbids: the fatal case is detectable up front, never
// silently truncated.
#[test]
fn cdata_terminator_is_detected() {
    assert!(xmlwriter::contains_cdata_terminator("]]>"));
    assert!(xmlwriter::contains_cdata_terminator("foo]]>bar"));
    assert!(xmlwriter::contains_cdata_terminator("aa]]]>bb"));
    assert!(!xmlwriter::contains_cdata_terminator(""));
    assert!(!xmlwriter::contains_cdata_terminator("]]"));
    assert!(!xmlwriter::contains_cdata_terminator("foo]] >bar"));
    assert!(!xmlwriter::contains_cdata_terminator("function cmp(a,b) { return (a<b)?-1:(a>b)?1:0; }"));
}

// An attribute written without escaping sits between quotes chosen by the
// configured style.
#[test]
fn raw_attribute_single_quote() {
    let opt = Options {
        use_single_quote: true,
        ..Options::default()
    };
    let mut w = XmlWriter::new(Vec::<u8>::new(), opt);
    w.start_element("p");
    w.write_attribute_raw("d", b"M 10 20");
    w.end_element();
    assert_eq!(from_utf8(&w.end_document()).unwrap(), "<p d='M 10 20'/>\n");
}

// An empty text node still gets its own (blank) line.
#[test]
fn empty_text_node_still_breaks_line() {
    let mut w = XmlWriter::new(Vec::<u8>::new(), Options::default());
    w.start_element("p");
    w.write_text("");
    assert_eq!(from_utf8(&w.end_document()).unwrap(), "<p>\n    \n</p>\n");
}
