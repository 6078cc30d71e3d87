//! The data model around the builder: OCR text lines in, labeled crop
//! regions out, and the file-name suffix each region is written under.

use vstd::prelude::*;
use vstd::string::StringExecFns;

verus! {

/// An OCR-detected line: the vertical pixel offset of its top edge, its
/// detected height, and its recognized text.
#[derive(Clone, Debug)]
pub struct TextLine {
    pub top_y: i32,
    pub height: i32,
    pub text: String,
}

/// Mathematical view of a [`TextLine`].
pub ghost struct LineModel {
    pub top_y: int,
    pub height: int,
    pub text: Seq<char>,
}

impl View for TextLine {
    type V = LineModel;

    open spec fn view(&self) -> LineModel {
        LineModel { top_y: self.top_y as int, height: self.height as int, text: self.text@ }
    }
}

/// A well-formed line sits on the page and has a positive detected height.
pub open spec fn line_wf(l: LineModel) -> bool {
    0 <= l.top_y && 0 < l.height
}

/// What a region crops: a whole question block, the question text alone, or
/// one answer option.
#[derive(Clone, Copy, PartialEq, Eq, Structural, Debug)]
pub enum RegionKind {
    FullQuestion,
    QuestionStart,
    QuestionAnswer,
}

/// One crop rectangle, labeled with the question it belongs to and, on an
/// answer crop, the answer's index.
#[derive(Clone, PartialEq, Eq, Debug)]
pub struct Region {
    pub kind: RegionKind,
    pub question_number: usize,
    pub answer_number: Option<usize>,
    pub left: i32,
    pub top: i32,
    pub width: i32,
    pub height: i32,
}

/// Mathematical view of a [`Region`].
pub ghost struct RegionModel {
    pub kind: RegionKind,
    pub question: int,
    pub answer: Option<int>,
    pub left: int,
    pub top: int,
    pub width: int,
    pub height: int,
}

impl View for Region {
    type V = RegionModel;

    open spec fn view(&self) -> RegionModel {
        RegionModel {
            kind: self.kind,
            question: self.question_number as int,
            answer: match self.answer_number {
                Some(a) => Some(a as int),
                None => None,
            },
            left: self.left as int,
            top: self.top as int,
            width: self.width as int,
            height: self.height as int,
        }
    }
}

/// The answer index a region carries, zero when it carries none.
pub open spec fn answer_of(r: RegionModel) -> int {
    match r.answer {
        Some(a) => a,
        None => 0,
    }
}

/// A well-labeled region: the question index starts at one, and an answer
/// index is present exactly on answer crops, itself starting at one.
pub open spec fn region_labels_wf(r: RegionModel) -> bool {
    &&& r.question >= 1
    &&& (r.kind is QuestionAnswer <==> r.answer is Some)
    &&& (match r.answer {
        Some(a) => a >= 1,
        None => true,
    })
}

/// The decimal digits of `n`, most significant first.
pub open spec fn decimal_digits(n: nat) -> Seq<char>
    decreases n,
{
    if n < 10 {
        seq![digit_char(n)]
    } else {
        decimal_digits(n / 10) + seq![digit_char(n % 10)]
    }
}

/// The digit character for a value below ten.
pub open spec fn digit_char(d: nat) -> char {
    if d == 0 {
        '0'
    } else if d == 1 {
        '1'
    } else if d == 2 {
        '2'
    } else if d == 3 {
        '3'
    } else if d == 4 {
        '4'
    } else if d == 5 {
        '5'
    } else if d == 6 {
        '6'
    } else if d == 7 {
        '7'
    } else if d == 8 {
        '8'
    } else {
        '9'
    }
}

fn digit_str(d: usize) -> (r: &'static str)
    requires
        d < 10,
    ensures
        r@ == seq![digit_char(d as nat)],
{
    proof {
        reveal_strlit("0");
        reveal_strlit("1");
        reveal_strlit("2");
        reveal_strlit("3");
        reveal_strlit("4");
        reveal_strlit("5");
        reveal_strlit("6");
        reveal_strlit("7");
        reveal_strlit("8");
        reveal_strlit("9");
    }
    let r = match d {
        0 => "0",
        1 => "1",
        2 => "2",
        3 => "3",
        4 => "4",
        5 => "5",
        6 => "6",
        7 => "7",
        8 => "8",
        _ => "9",
    };
    proof {
        assert(r@ =~= seq![digit_char(d as nat)]);
    }
    r
}

/// Renders a number in decimal, as the region file names carry it.
pub fn usize_to_decimal(n: usize) -> (s: String)
    ensures
        s@ == decimal_digits(n as nat),
    decreases n,
{
    if n < 10 {
        String::from_str(digit_str(n))
    } else {
        let mut s = usize_to_decimal(n / 10);
        s.append(digit_str(n % 10));
        proof {
            assert(s@ =~= decimal_digits(n as nat));
        }
        s
    }
}

/// The full name of the file a region's crop is written to, under the given
/// output prefix.
pub open spec fn spec_file_name(r: RegionModel, prefix: Seq<char>) -> Seq<char> {
    match r.kind {
        RegionKind::FullQuestion => prefix + "-full-question-"@ + decimal_digits(
            r.question as nat,
        ) + ".png"@,
        RegionKind::QuestionStart => prefix + "-question"@ + decimal_digits(r.question as nat)
            + ".png"@,
        RegionKind::QuestionAnswer => prefix + "-question"@ + decimal_digits(r.question as nat)
            + "-answer"@ + decimal_digits(answer_of(r) as nat) + ".png"@,
    }
}

impl Region {
    /// The name of the file this region's crop is written to, under `prefix`.
    pub fn file_name(&self, prefix: &str) -> (s: String)
        ensures
            s@ == spec_file_name(self@, prefix@),
    {
        let mut s = String::from_str(prefix);
        match self.kind {
            RegionKind::FullQuestion => {
                s.append("-full-question-");
                let d = usize_to_decimal(self.question_number);
                s.append(d.as_str());
                s.append(".png");
            },
            RegionKind::QuestionStart => {
                s.append("-question");
                let d = usize_to_decimal(self.question_number);
                s.append(d.as_str());
                s.append(".png");
            },
            RegionKind::QuestionAnswer => {
                s.append("-question");
                let d = usize_to_decimal(self.question_number);
                s.append(d.as_str());
                s.append("-answer");
                let a: usize = match self.answer_number {
                    Some(a) => a,
                    None => 0,
                };
                let e = usize_to_decimal(a);
                s.append(e.as_str());
                s.append(".png");
            },
        }
        proof {
            assert(s@ =~= spec_file_name(self@, prefix@));
        }
        s
    }

    /// Whether the rectangle reaches below the given page height: the
    /// out-of-bounds condition the cropping collaborator must clamp or
    /// reject.
    pub fn reaches_below(&self, page_height: i32) -> (r: bool)
        ensures
            r == (self@.top + self@.height > page_height),
    {
        (self.top as i64) + (self.height as i64) > (page_height as i64)
    }
}

} // verus!
