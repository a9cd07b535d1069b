//! Attribution lines for AI-generated commits and pull requests.

use vstd::prelude::*;
use crate::text::{all_ascii, ascii_lower_seq, join, join_strings, lowercase, str_eq, str_trim, str_trim_end, to_lowercase, trim, trim_end, trim_start};

verus! {

/// How generated content is attributed.
#[derive(Debug, Clone, Copy, PartialEq, Eq, Hash, Structural)]
pub enum AttributionStyle {
    /// "Assisted-by: Model via Othala <othala@noreply>"
    AssistedBy,
    /// "Co-Authored-By: Othala <othala@noreply>"
    CoAuthoredBy,
    /// No attribution.
    NoAttribution,
}

/// The label of a style.
pub open spec fn style_label(s: AttributionStyle) -> Seq<char> {
    match s {
        AttributionStyle::AssistedBy => "assisted-by"@,
        AttributionStyle::CoAuthoredBy => "co-authored-by"@,
        AttributionStyle::NoAttribution => "none"@,
    }
}

/// Result of parsing a style name, after trimming and lower-casing it.
pub open spec fn spec_parse_style(s: Seq<char>) -> Result<AttributionStyle, Seq<char>> {
    let t = lowercase(trim(s));
    if t == "assisted-by"@ || t == "assisted_by"@ {
        Ok(AttributionStyle::AssistedBy)
    } else if t == "co-authored-by"@ || t == "co_authored_by"@ || t == "coauthored"@ {
        Ok(AttributionStyle::CoAuthoredBy)
    } else if t == "none"@ || t == "off"@ || t == "disabled"@ {
        Ok(AttributionStyle::NoAttribution)
    } else {
        Err("invalid attribution style: '"@ + t
            + "'. valid: assisted-by, co-authored-by, none"@)
    }
}

impl AttributionStyle {
    /// The style's label.
    pub fn as_str(&self) -> (res: &'static str)
        ensures
            res@ == style_label(*self),
    {
        match self {
            AttributionStyle::AssistedBy => "assisted-by",
            AttributionStyle::CoAuthoredBy => "co-authored-by",
            AttributionStyle::NoAttribution => "none",
        }
    }

    /// The style's label as an owned string.
    pub fn to_string(&self) -> (res: String)
        ensures
            res@ == style_label(*self),
    {
        String::from_str(self.as_str())
    }
}

impl Default for AttributionStyle {
    fn default() -> (res: Self)
        ensures
            res == AttributionStyle::AssistedBy,
    {
        AttributionStyle::AssistedBy
    }
}

/// Parses a style name; surrounding whitespace and case are ignored.
pub fn parse_attribution_style(s: &str) -> (res: Result<AttributionStyle, String>)
    ensures
        match (res, spec_parse_style(s@)) {
            (Ok(a), Ok(b)) => a == b,
            (Err(e), Err(m)) => e@ == m,
            _ => false,
        },
        forall|st: AttributionStyle| s@ == #[trigger] style_label(st) ==> res == Ok::<AttributionStyle, String>(st),
{
    let trimmed = str_trim(s);
    let t = to_lowercase(trimmed.as_str());
    proof {
        reveal_strlit("assisted-by");
        reveal_strlit("co-authored-by");
        reveal_strlit("none");
        reveal_strlit("assisted_by");
        reveal_strlit("co_authored_by");
        reveal_strlit("coauthored");
        reveal_strlit("off");
        reveal_strlit("disabled");
        assert forall|st: AttributionStyle| s@ == #[trigger] style_label(st) implies t@ == s@ by {
            let l = s@;
            assert(trim_start(l) == l);
            assert(trim_end(l) == l);
            assert(all_ascii(trimmed@));
            assert(ascii_lower_seq(l) =~= l);
        }
    }
    let ts = t.as_str();
    if str_eq(ts, "assisted-by") || str_eq(ts, "assisted_by") {
        Ok(AttributionStyle::AssistedBy)
    } else if str_eq(ts, "co-authored-by") || str_eq(ts, "co_authored_by") || str_eq(
        ts,
        "coauthored",
    ) {
        Ok(AttributionStyle::CoAuthoredBy)
    } else if str_eq(ts, "none") || str_eq(ts, "off") || str_eq(ts, "disabled") {
        Ok(AttributionStyle::NoAttribution)
    } else {
        let mut msg = String::from_str("invalid attribution style: '");
        msg.append(ts);
        msg.append("'. valid: assisted-by, co-authored-by, none");
        Err(msg)
    }
}

impl std::str::FromStr for AttributionStyle {
    type Err = String;

    fn from_str(s: &str) -> Result<Self, Self::Err> {
        parse_attribution_style(s)
    }
}

/// Attribution settings.
#[derive(Debug, Clone)]
pub struct AttributionConfig {
    /// Style for git commits.
    pub commit_style: AttributionStyle,
    /// Style for PR descriptions.
    pub pr_style: AttributionStyle,
    /// Tool name (default "Othala").
    pub tool_name: String,
    /// Tool email (default "othala@noreply").
    pub tool_email: String,
    /// Whether PR descriptions get a "Generated with {tool}" line.
    pub add_generated_line: bool,
}

impl Default for AttributionConfig {
    fn default() -> (res: Self)
        ensures
            res.commit_style == AttributionStyle::AssistedBy,
            res.pr_style == AttributionStyle::AssistedBy,
            res.tool_name@ == "Othala"@,
            res.tool_email@ == "othala@noreply"@,
            res.add_generated_line,
    {
        AttributionConfig {
            commit_style: AttributionStyle::AssistedBy,
            pr_style: AttributionStyle::AssistedBy,
            tool_name: String::from_str("Othala"),
            tool_email: String::from_str("othala@noreply"),
            add_generated_line: true,
        }
    }
}

/// The commit trailer for `model`, if the commit style asks for one.
pub open spec fn spec_commit_trailer(c: AttributionConfig, model: Seq<char>) -> Option<Seq<char>> {
    match c.commit_style {
        AttributionStyle::AssistedBy => Some(
            "Assisted-by: "@ + model + " via "@ + c.tool_name@ + " <"@ + c.tool_email@ + ">"@,
        ),
        AttributionStyle::CoAuthoredBy => Some(
            "Co-Authored-By: "@ + c.tool_name@ + " <"@ + c.tool_email@ + ">"@,
        ),
        AttributionStyle::NoAttribution => None,
    }
}

/// The lines of the PR attribution block.
pub open spec fn spec_pr_parts(c: AttributionConfig, model: Seq<char>) -> Seq<Seq<char>> {
    let style_part: Seq<Seq<char>> = match c.pr_style {
        AttributionStyle::AssistedBy => seq!["Assisted by "@ + model + " via "@ + c.tool_name@],
        AttributionStyle::CoAuthoredBy => seq!["Co-authored with "@ + c.tool_name@],
        AttributionStyle::NoAttribution => seq![],
    };
    if c.add_generated_line {
        style_part.push("Generated with "@ + c.tool_name@)
    } else {
        style_part
    }
}

/// The PR attribution block, if it has any line.
pub open spec fn spec_pr_attribution(c: AttributionConfig, model: Seq<char>) -> Option<Seq<char>> {
    let parts = spec_pr_parts(c, model);
    if parts.len() == 0 {
        None
    } else {
        Some(join(parts, "\n"@))
    }
}

/// Views an optional string.
pub open spec fn opt_view(o: Option<String>) -> Option<Seq<char>> {
    match o {
        Some(s) => Some(s@),
        None => None,
    }
}

impl AttributionConfig {
    /// The commit trailer line.
    pub fn commit_trailer(&self, model_name: &str) -> (res: Option<String>)
        ensures
            opt_view(res) == spec_commit_trailer(*self, model_name@),
    {
        match self.commit_style {
            AttributionStyle::AssistedBy => {
                let mut s = String::from_str("Assisted-by: ");
                s.append(model_name);
                s.append(" via ");
                s.append(self.tool_name.as_str());
                s.append(" <");
                s.append(self.tool_email.as_str());
                s.append(">");
                Some(s)
            },
            AttributionStyle::CoAuthoredBy => {
                let mut s = String::from_str("Co-Authored-By: ");
                s.append(self.tool_name.as_str());
                s.append(" <");
                s.append(self.tool_email.as_str());
                s.append(">");
                Some(s)
            },
            AttributionStyle::NoAttribution => None,
        }
    }

    /// The PR attribution text.
    pub fn pr_attribution(&self, model_name: &str) -> (res: Option<String>)
        ensures
            opt_view(res) == spec_pr_attribution(*self, model_name@),
    {
        let mut parts: Vec<String> = Vec::new();
        match self.pr_style {
            AttributionStyle::AssistedBy => {
                let mut s = String::from_str("Assisted by ");
                s.append(model_name);
                s.append(" via ");
                s.append(self.tool_name.as_str());
                parts.push(s);
            },
            AttributionStyle::CoAuthoredBy => {
                let mut s = String::from_str("Co-authored with ");
                s.append(self.tool_name.as_str());
                parts.push(s);
            },
            AttributionStyle::NoAttribution => {},
        }
        if self.add_generated_line {
            let mut s = String::from_str("Generated with ");
            s.append(self.tool_name.as_str());
            parts.push(s);
        }
        assert(parts.deep_view() =~= spec_pr_parts(*self, model_name@));
        if parts.len() == 0 {
            None
        } else {
            Some(join_strings(&parts, "\n"))
        }
    }

    /// The commit message with the trailer appended after a blank line.
    pub fn annotate_commit_message(&self, message: &str, model_name: &str) -> (res: String)
        ensures
            res@ == match spec_commit_trailer(*self, model_name@) {
                Some(t) => trim_end(message@) + "\n\n"@ + t,
                None => message@,
            },
    {
        match self.commit_trailer(model_name) {
            Some(trailer) => {
                let mut s = str_trim_end(message);
                s.append("\n\n");
                s.append(trailer.as_str());
                s
            },
            None => String::from_str(message),
        }
    }

    /// The PR body with the attribution appended after a separator.
    pub fn annotate_pr_body(&self, body: &str, model_name: &str) -> (res: String)
        ensures
            res@ == match spec_pr_attribution(*self, model_name@) {
                Some(a) => trim_end(body@) + "\n\n---\n"@ + a,
                None => body@,
            },
    {
        match self.pr_attribution(model_name) {
            Some(attr) => {
                let mut s = str_trim_end(body);
                s.append("\n\n---\n");
                s.append(attr.as_str());
                s
            },
            None => String::from_str(body),
        }
    }
}

} // verus!
