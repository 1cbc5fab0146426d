//! Building toast-notification payloads.
//!
//! A notification is assembled from optional title, two text lines, a hero
//! image and a silence flag; each text fragment is XML-escaped and wrapped
//! in its markup, and the whole toast document is produced as one string.
//! Rendering the document is the embedder's business.

use vstd::prelude::*;

verus! {

/// The XML entity for one character, as `quick_xml::escape::escape`
/// rewrites it: `<`, `>`, `&`, `'`, `"` and carriage return become
/// entities, everything else stays itself.
pub open spec fn xml_escaped_char(c: char) -> Seq<char> {
    if c == '<' {
        seq!['&', 'l', 't', ';']
    } else if c == '>' {
        seq!['&', 'g', 't', ';']
    } else if c == '&' {
        seq!['&', 'a', 'm', 'p', ';']
    } else if c == '\'' {
        seq!['&', 'a', 'p', 'o', 's', ';']
    } else if c == '"' {
        seq!['&', 'q', 'u', 'o', 't', ';']
    } else if c == '\r' {
        seq!['&', '#', '1', '3', ';']
    } else {
        seq![c]
    }
}

/// A character sequence with every XML special character replaced by its
/// entity.
pub open spec fn xml_escaped(s: Seq<char>) -> Seq<char>
    decreases s.len(),
{
    if s.len() == 0 {
        Seq::empty()
    } else {
        xml_escaped_char(s[0]) + xml_escaped(s.drop_first())
    }
}

/// Relies on `quick_xml::escape::escape`: replaces `<`, `>`, `&`, `'`, `"`
/// and carriage return by their XML entities and keeps every other
/// character.
#[verifier::external_body]
fn xml_escape(s: &str) -> (r: String)
    ensures
        r@ == xml_escaped(s@),
{
    quick_xml::escape::escape(s).into_owned()
}

/// One toast notification under assembly: the markup fragments for its
/// texts and image, and the audio silence flag.
pub struct WinNotification {
    pub app_id: String,
    pub title: String,
    pub line1: String,
    pub line2: String,
    pub image: String,
    pub silent: String,
}

impl WinNotification {
    /// An empty notification for the application id, not silent.
    pub fn new(app_id: String) -> (r: WinNotification)
        ensures
            r.app_id@ == app_id@,
            r.title@ == Seq::<char>::empty(),
            r.line1@ == Seq::<char>::empty(),
            r.line2@ == Seq::<char>::empty(),
            r.image@ == Seq::<char>::empty(),
            r.silent@ == "false"@,
    {
        WinNotification {
            app_id: app_id,
            title: String::new(),
            line1: String::new(),
            line2: String::new(),
            image: String::new(),
            silent: "false".to_owned(),
        }
    }

    /// Sets the title fragment: the escaped content in its text element.
    pub fn title(&mut self, content: String)
        ensures
            final(self).title@ == "<text id=\"1\">"@ + xml_escaped(content@) + "</text>"@,
            final(self).app_id == old(self).app_id,
            final(self).line1 == old(self).line1,
            final(self).line2 == old(self).line2,
            final(self).image == old(self).image,
            final(self).silent == old(self).silent,
    {
        let e = xml_escape(content.as_str());
        let mut t = "<text id=\"1\">".to_owned();
        t.append(e.as_str());
        t.append("</text>");
        proof {
            assert(t@ =~= "<text id=\"1\">"@ + xml_escaped(content@) + "</text>"@);
        }
        self.title = t;
    }

    /// Sets the first line fragment.
    pub fn line1(&mut self, content: String)
        ensures
            final(self).line1@ == "<text id=\"2\">"@ + xml_escaped(content@) + "</text>"@,
            final(self).app_id == old(self).app_id,
            final(self).title == old(self).title,
            final(self).line2 == old(self).line2,
            final(self).image == old(self).image,
            final(self).silent == old(self).silent,
    {
        let e = xml_escape(content.as_str());
        let mut t = "<text id=\"2\">".to_owned();
        t.append(e.as_str());
        t.append("</text>");
        proof {
            assert(t@ =~= "<text id=\"2\">"@ + xml_escaped(content@) + "</text>"@);
        }
        self.line1 = t;
    }

    /// Sets the second line fragment.
    pub fn line2(&mut self, content: String)
        ensures
            final(self).line2@ == "<text id=\"3\">"@ + xml_escaped(content@) + "</text>"@,
            final(self).app_id == old(self).app_id,
            final(self).title == old(self).title,
            final(self).line1 == old(self).line1,
            final(self).image == old(self).image,
            final(self).silent == old(self).silent,
    {
        let e = xml_escape(content.as_str());
        let mut t = "<text id=\"3\">".to_owned();
        t.append(e.as_str());
        t.append("</text>");
        proof {
            assert(t@ =~= "<text id=\"3\">"@ + xml_escaped(content@) + "</text>"@);
        }
        self.line2 = t;
    }

    /// Sets the hero-image fragment for the escaped file path.
    pub fn image(&mut self, path: String)
        ensures
            final(self).image@ == "<image placement=\"hero\" src=\"file:///"@ + xml_escaped(path@)
                + "\" alt=\"image\" />"@,
            final(self).app_id == old(self).app_id,
            final(self).title == old(self).title,
            final(self).line1 == old(self).line1,
            final(self).line2 == old(self).line2,
            final(self).silent == old(self).silent,
    {
        let e = xml_escape(path.as_str());
        let mut t = "<image placement=\"hero\" src=\"file:///".to_owned();
        t.append(e.as_str());
        t.append("\" alt=\"image\" />");
        proof {
            assert(t@ =~= "<image placement=\"hero\" src=\"file:///"@ + xml_escaped(path@)
                + "\" alt=\"image\" />"@);
        }
        self.image = t;
    }

    /// Chooses whether the toast plays its notification sound.
    pub fn is_silent(&mut self, silent: bool)
        ensures
            final(self).silent@ == (if silent {
                "true"@
            } else {
                "false"@
            }),
            final(self).app_id == old(self).app_id,
            final(self).title == old(self).title,
            final(self).line1 == old(self).line1,
            final(self).line2 == old(self).line2,
            final(self).image == old(self).image,
    {
        if silent {
            self.silent = "true".to_owned();
        } else {
            self.silent = "false".to_owned();
        }
    }

    /// The whole toast document: the fragments in their fixed template, the
    /// silence flag in the audio element.
    pub fn toast_xml(&self) -> (r: String)
        ensures
            r@ == "\n      <toast duration=\"short\">\n        <visual>\n          <binding template=\"ToastGeneric\">\n            "@
                + self.image@ + self.title@ + self.line1@ + self.line2@
                + "\n          </binding>\n        </visual>\n        <audio src=\"ms-winsoundevent:Notification.Default\" silent=\""@
                + self.silent@ + "\" />\n      </toast>\n    "@,
    {
        let mut t =
            "\n      <toast duration=\"short\">\n        <visual>\n          <binding template=\"ToastGeneric\">\n            ".to_owned();
        t.append(self.image.as_str());
        t.append(self.title.as_str());
        t.append(self.line1.as_str());
        t.append(self.line2.as_str());
        t.append(
            "\n          </binding>\n        </visual>\n        <audio src=\"ms-winsoundevent:Notification.Default\" silent=\"",
        );
        t.append(self.silent.as_str());
        t.append("\" />\n      </toast>\n    ");
        proof {
            assert(t@ =~= "\n      <toast duration=\"short\">\n        <visual>\n          <binding template=\"ToastGeneric\">\n            "@
                + self.image@ + self.title@ + self.line1@ + self.line2@
                + "\n          </binding>\n        </visual>\n        <audio src=\"ms-winsoundevent:Notification.Default\" silent=\""@
                + self.silent@ + "\" />\n      </toast>\n    "@);
        }
        t
    }
}

/// Builds one notification from its optional parts, each applied only when
/// given; showing the built toast is the embedder's business.
pub fn send_notification(
    app_id: String,
    title: Option<String>,
    line1: Option<String>,
    line2: Option<String>,
    image: Option<String>,
    silent: Option<bool>,
) -> (n: WinNotification)
    ensures
        n.app_id@ == app_id@,
        n.title@ == (match title {
            Some(c) => "<text id=\"1\">"@ + xml_escaped(c@) + "</text>"@,
            None => Seq::<char>::empty(),
        }),
        n.line1@ == (match line1 {
            Some(c) => "<text id=\"2\">"@ + xml_escaped(c@) + "</text>"@,
            None => Seq::<char>::empty(),
        }),
        n.line2@ == (match line2 {
            Some(c) => "<text id=\"3\">"@ + xml_escaped(c@) + "</text>"@,
            None => Seq::<char>::empty(),
        }),
        n.image@ == (match image {
            Some(p) => "<image placement=\"hero\" src=\"file:///"@ + xml_escaped(p@)
                + "\" alt=\"image\" />"@,
            None => Seq::<char>::empty(),
        }),
        n.silent@ == (match silent {
            Some(true) => "true"@,
            Some(false) => "false"@,
            None => "false"@,
        }),
{
    let mut noti = WinNotification::new(app_id);
    match title {
        Some(content) => noti.title(content),
        None => (),
    }
    match line1 {
        Some(content) => noti.line1(content),
        None => (),
    }
    match line2 {
        Some(content) => noti.line2(content),
        None => (),
    }
    match image {
        Some(content) => noti.image(content),
        None => (),
    }
    match silent {
        Some(content) => noti.is_silent(content),
        None => (),
    }
    noti
}

} // verus!
