//! What can go wrong in a setup step, and the words for it.
use vstd::prelude::*;

verus! {

/// Why a text is not a count.
#[derive(Debug, Clone, Copy, PartialEq, Eq, Structural)]
pub enum CountError {
    /// The text is empty.
    Empty,
    /// A character other than a decimal digit, or a sign with no digit behind it.
    InvalidDigit,
    /// The number does not fit in a `usize`.
    TooLarge,
}

/// Why a setup step was given up.
#[derive(Debug, PartialEq, Eq)]
pub enum SetupError {
    /// The home directory is not known.
    HomeUnresolved,
    /// A host alias with a carriage return or a line feed in it.
    AliasLineBreak,
    /// A key path with a carriage return or a line feed in it.
    KeyLineBreak,
    /// A host alias, the one given here, with white space in it.
    AliasWhiteSpace(String),
    /// A host alias, the one given here, with a `#` in it, where a comment would begin.
    AliasComment(String),
    /// No key path.
    EmptyKey,
    /// No GitHub username.
    EmptyUsername,
    /// The number of identities cannot be read.
    Count(CountError),
}

/// A [`SetupError`] with its text taken as a sequence of characters.
pub enum Fault {
    HomeUnresolved,
    AliasLineBreak,
    KeyLineBreak,
    AliasWhiteSpace(Seq<char>),
    AliasComment(Seq<char>),
    EmptyKey,
    EmptyUsername,
    Count(CountError),
}

impl View for SetupError {
    type V = Fault;

    open spec fn view(&self) -> Fault {
        match self {
            SetupError::HomeUnresolved => Fault::HomeUnresolved,
            SetupError::AliasLineBreak => Fault::AliasLineBreak,
            SetupError::KeyLineBreak => Fault::KeyLineBreak,
            SetupError::AliasWhiteSpace(alias) => Fault::AliasWhiteSpace(alias@),
            SetupError::AliasComment(alias) => Fault::AliasComment(alias@),
            SetupError::EmptyKey => Fault::EmptyKey,
            SetupError::EmptyUsername => Fault::EmptyUsername,
            SetupError::Count(e) => Fault::Count(*e),
        }
    }
}

/// A text between double quotes, with the escapes that `{:?}` gives it.
pub uninterp spec fn debug_form(text: Seq<char>) -> Seq<char>;

/// `<str as Debug>::fmt`, reached through `format!("{:?}")`. Trusted: what it writes
/// depends on the text alone. Which characters it escapes, and how, is not stated.
#[verifier::external_body]
fn debug_text(text: &str) -> (quoted: String)
    ensures
        quoted@ == debug_form(text@),
{
    format!("{:?}", text)
}

impl Fault {
    /// The words for a fault, where `quoted` is the debug form of the text it carries.
    pub open spec fn words(self, quoted: Seq<char>) -> Seq<char> {
        match self {
            Fault::HomeUnresolved => "could not resolve home directory"@,
            Fault::AliasLineBreak => "SSH host alias must not contain CR/LF characters"@,
            Fault::KeyLineBreak => "SSH key path must not contain CR/LF characters"@,
            Fault::AliasWhiteSpace(_) => "SSH host alias must not contain whitespace: "@ + quoted,
            Fault::AliasComment(_) => "SSH host alias must not contain '#': "@ + quoted,
            Fault::EmptyKey => "SSH key path must not be empty"@,
            Fault::EmptyUsername => "GitHub username must not be empty"@,
            Fault::Count(_) => "expected a number for identity count"@,
        }
    }

    /// The text that a fault carries.
    pub open spec fn subject(self) -> Seq<char> {
        match self {
            Fault::AliasWhiteSpace(alias) => alias,
            Fault::AliasComment(alias) => alias,
            _ => seq![],
        }
    }
}

impl CountError {
    /// The words for why a text is not a count.
    pub open spec fn words(self) -> Seq<char> {
        match self {
            CountError::Empty => "cannot parse integer from empty string"@,
            CountError::InvalidDigit => "invalid digit found in string"@,
            CountError::TooLarge => "number too large to fit in target type"@,
        }
    }

    /// The words for why a text is not a count.
    pub fn message(&self) -> (message: &'static str)
        ensures
            message@ == match self {
                CountError::Empty => "cannot parse integer from empty string"@,
                CountError::InvalidDigit => "invalid digit found in string"@,
                CountError::TooLarge => "number too large to fit in target type"@,
            },
            message@ == self.words(),
    {
        match self {
            CountError::Empty => "cannot parse integer from empty string",
            CountError::InvalidDigit => "invalid digit found in string",
            CountError::TooLarge => "number too large to fit in target type",
        }
    }
}

impl SetupError {
    /// The words for the error. `quoted` stands for the text that it carries.
    pub fn message_with(&self, quoted: &str) -> (message: String)
        ensures
            message@ == self@.words(quoted@),
    {
        match self {
            SetupError::HomeUnresolved => "could not resolve home directory".to_string(),
            SetupError::AliasLineBreak =>
                "SSH host alias must not contain CR/LF characters".to_string(),
            SetupError::KeyLineBreak =>
                "SSH key path must not contain CR/LF characters".to_string(),
            SetupError::AliasWhiteSpace(_) => {
                let mut message = "SSH host alias must not contain whitespace: ".to_string();
                message.append(quoted);
                message
            },
            SetupError::AliasComment(_) => {
                let mut message = "SSH host alias must not contain '#': ".to_string();
                message.append(quoted);
                message
            },
            SetupError::EmptyKey => "SSH key path must not be empty".to_string(),
            SetupError::EmptyUsername => "GitHub username must not be empty".to_string(),
            SetupError::Count(_) => "expected a number for identity count".to_string(),
        }
    }

    /// The words for the error, with an alias that it carries in its debug form.
    pub fn message(&self) -> (message: String)
        ensures
            message@ == self@.words(debug_form(self@.subject())),
    {
        match self {
            SetupError::AliasWhiteSpace(alias) | SetupError::AliasComment(alias) => {
                let quoted = debug_text(alias.as_str());
                self.message_with(quoted.as_str())
            },
            _ => self.message_with(""),
        }
    }
}

/// The words say what is wrong, and quote the alias that is wrong at their end; nothing else
/// is quoted.
pub proof fn law_words_for_a_fault(fault: Fault, quoted: Seq<char>)
    ensures
        fault.words(quoted) == match fault {
            Fault::HomeUnresolved => "could not resolve home directory"@,
            Fault::AliasLineBreak => "SSH host alias must not contain CR/LF characters"@,
            Fault::KeyLineBreak => "SSH key path must not contain CR/LF characters"@,
            Fault::AliasWhiteSpace(_) => "SSH host alias must not contain whitespace: "@ + quoted,
            Fault::AliasComment(_) => "SSH host alias must not contain '#': "@ + quoted,
            Fault::EmptyKey => "SSH key path must not be empty"@,
            Fault::EmptyUsername => "GitHub username must not be empty"@,
            Fault::Count(_) => "expected a number for identity count"@,
        },
        fault matches Fault::AliasWhiteSpace(alias) ==> fault.subject() == alias,
        fault matches Fault::AliasComment(alias) ==> fault.subject() == alias,
{
}

/// The words for why a text is not a count are those of the standard library for an integer
/// that cannot be read.
pub proof fn law_words_for_a_count_error(error: CountError)
    ensures
        error is Empty ==> error.words() == "cannot parse integer from empty string"@,
        error is InvalidDigit ==> error.words() == "invalid digit found in string"@,
        error is TooLarge ==> error.words() == "number too large to fit in target type"@,
{
}

} // verus!
