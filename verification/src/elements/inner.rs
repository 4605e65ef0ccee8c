use vstd::prelude::*;
use vstd::string::StringExecFns;

verus! {

/// The name of an element.
#[derive(Debug)]
pub struct ElementName {
    pub name: String,
}

#[derive(Debug)]
pub struct Track {
    pub name: ElementName,
    pub left: Option<ElementName>,
    pub right: Option<ElementName>,
}

#[derive(Debug)]
pub struct Point {
    pub name: ElementName,
    pub trunk: Option<ElementName>,
    pub normal: Option<ElementName>,
    pub reverse: Option<ElementName>,
    pub default: Option<PointDefault>,
}

#[derive(Debug)]
pub enum PointDefault {
    Normal,
    Reverse,
    AC,
    AD,
    BC,
    BD,
}

#[derive(Debug)]
pub struct SlipPoint {
    pub name: ElementName,
    pub variant: SlipPointVariant,
    pub a: Option<ElementName>,
    pub b: Option<ElementName>,
    pub c: Option<ElementName>,
    pub d: Option<ElementName>,
    pub default: Option<PointDefault>,
}

#[derive(Debug)]
pub enum SlipPointVariant {
    AbCd,
    AC,
    BD,
    Crossing,
}

#[derive(Debug)]
pub struct MainSignal {
    pub name: ElementName,
    pub from: ElementName,
    pub to: ElementName,
    pub overlap_end: Vec<ElementName>,
}

#[derive(Debug)]
pub struct DistantSignal {
    pub name: ElementName,
    pub from: ElementName,
    pub to: ElementName,
}

#[derive(Debug)]
pub struct ShuntingSignal {
    pub name: ElementName,
    pub from: ElementName,
    pub to: ElementName,
}

#[derive(Debug)]
pub struct TrainRouteEnd {
    pub name: ElementName,
    pub from: ElementName,
    pub to: Option<ElementName>,
}

/// The names of tracks: a number.
pub const TRACK_NAME_REGEX: &'static str = r"^\d+$";

/// The names of points: `W` and a number.
pub const POINT_NAME_REGEX: &'static str = r"^W \d+$";

/// The names of crossings: `K` and a number, or a Roman numeral.
pub const CROSSING_NAME_REGEX: &'static str = r"^(?:K \d+)|(?:X{0,3})(?:IX|IV|V?I{0,3})$";

/// The names of derailers: `Gs` and a Roman numeral.
pub const DERAILER_NAME_REGEX: &'static str = r"^Gs (?:X{0,3})(?:IX|IV|V?I{0,3})$";

/// The names of main signals: capital letters, and a number if any.
pub const MAIN_SIGNAL_NAME_REGEX: &'static str = r"^[A-Z]+ ?\d*$";

/// The names of distant signals: those of their main signals in small letters.
pub const DISTANT_SIGNAL_NAME_REGEX: &'static str = r"^[a-z]+(?:/[a-z]+)*(?: ?\d+(?:/\d+)*)?$";

/// The names of shunting signals: `Ls`, a number, and a Roman numeral if any.
pub const SHUNTING_SIGNAL_NAME_REGEX: &'static str =
    r"^Ls \d+(?:-(?:X{0,3})(?:IX|IV|V?I{0,3}))?$";

/// The names of elements that stand for no device: `ID` and letters or digits.
pub const LOGICAL_ELEMENT_NAME_REGEX: &'static str = r"^ID [a-zA-Z0-9]+$";

/// Whether the regular expression `pattern` matches somewhere in `text`, as
/// `regex::Regex::is_match` says; `None` where `pattern` is no regular
/// expression that `regex::Regex::new` accepts.
pub uninterp spec fn regex_match(pattern: Seq<char>, text: Seq<char>) -> Option<bool>;

/// Calls `regex::Regex::is_match` on `text`, with `pattern` made a `Regex`
/// by `regex::Regex::new`. Nothing is claimed of the result but that it is
/// what these two give for `pattern` and `text`: it is the same whenever and
/// wherever it is asked for.
#[verifier::external_body]
fn is_match(pattern: &str, text: &str) -> (r: Option<bool>)
    ensures
        r == regex_match(pattern@, text@),
{
    match regex::Regex::new(pattern) {
        Ok(re) => Some(re.is_match(text)),
        Err(_) => None,
    }
}

/// Whether `answer` says that a pattern matched.
pub open spec fn matched(answer: Option<bool>) -> bool {
    answer == Some(true)
}

/// Whether one of the eight answers, one for each kind of name, says that
/// its pattern matched.
pub open spec fn one_matched(answers: Seq<Option<bool>>) -> bool {
    exists|k: int| 0 <= k < answers.len() && matched(#[trigger] answers[k])
}

/// What the patterns for the kinds of names answer to `name`, in the order
/// track, point, crossing, derailer, main signal, distant signal, shunting
/// signal, logical element.
pub open spec fn answers(name: Seq<char>) -> Seq<Option<bool>> {
    seq![
        regex_match(TRACK_NAME_REGEX@, name),
        regex_match(POINT_NAME_REGEX@, name),
        regex_match(CROSSING_NAME_REGEX@, name),
        regex_match(DERAILER_NAME_REGEX@, name),
        regex_match(MAIN_SIGNAL_NAME_REGEX@, name),
        regex_match(DISTANT_SIGNAL_NAME_REGEX@, name),
        regex_match(SHUNTING_SIGNAL_NAME_REGEX@, name),
        regex_match(LOGICAL_ELEMENT_NAME_REGEX@, name),
    ]
}

/// Whether one of `answers` says that its pattern matched.
pub fn any_matched(answers: &Vec<Option<bool>>) -> (r: bool)
    ensures
        r == one_matched(answers@),
{
    let mut k: usize = 0;
    while k < answers.len()
        invariant
            k <= answers.len(),
            forall|j: int| 0 <= j < k ==> !matched(#[trigger] answers@[j]),
        decreases answers.len() - k,
    {
        match answers[k] {
            Some(true) => {
                return true;
            },
            _ => {},
        }
        k += 1;
    }
    false
}

impl ElementName {
    /// Whether `name` is the name of a track, a point, a crossing, a
    /// derailer, a signal or a logical element.
    pub fn is_valid(name: &str) -> (r: bool)
        ensures
            r == one_matched(answers(name@)),
    {
        any_matched(&Self::kinds(name))
    }

    /// What the patterns for the kinds of names answer to `name`, in the
    /// order track, point, crossing, derailer, main signal, distant signal,
    /// shunting signal, logical element.
    pub fn kinds(name: &str) -> (r: Vec<Option<bool>>)
        ensures
            r@ == answers(name@),
    {
        let mut all: Vec<Option<bool>> = Vec::new();
        all.push(is_match(TRACK_NAME_REGEX, name));
        all.push(is_match(POINT_NAME_REGEX, name));
        all.push(is_match(CROSSING_NAME_REGEX, name));
        all.push(is_match(DERAILER_NAME_REGEX, name));
        all.push(is_match(MAIN_SIGNAL_NAME_REGEX, name));
        all.push(is_match(DISTANT_SIGNAL_NAME_REGEX, name));
        all.push(is_match(SHUNTING_SIGNAL_NAME_REGEX, name));
        all.push(is_match(LOGICAL_ELEMENT_NAME_REGEX, name));
        assert(all@ =~= answers(name@));
        all
    }

    /// The name `name`, whether it is a valid one or not: see [`Self::is_valid`].
    pub fn parse(name: &str) -> (r: ElementName)
        ensures
            r.name@ == name@,
    {
        ElementName { name: String::from_str(name) }
    }

    pub fn to_string(&self) -> (r: String)
        ensures
            r@ == self.name@,
    {
        self.name.clone()
    }
}

} // verus!
