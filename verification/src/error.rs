//! Errors produced while loading locales.
use vstd::prelude::*;

verus! {

broadcast use vstd::string::group_string_axioms;

/// Errors produced by the library.
#[derive(Debug)]
pub enum LangError {
    /// The language file could not be read.
    Io {
        /// The locale that failed to load.
        locale: String,
        /// The underlying I/O error message.
        cause: String,
    },
    /// The language file was not valid TOML.
    Parse {
        /// The locale whose file could not be parsed.
        locale: String,
        /// A description of the parse failure.
        cause: String,
    },
    /// A locale was requested that has never been loaded.
    NotLoaded {
        /// The locale that was not found.
        locale: String,
    },
    /// A locale identifier was rejected before any file access occurred.
    InvalidLocale {
        /// The locale that was rejected.
        locale: String,
    },
}

/// A `LangError` with its strings taken by their characters.
pub enum LangErrorView {
    Io { locale: Seq<char>, cause: Seq<char> },
    Parse { locale: Seq<char>, cause: Seq<char> },
    NotLoaded { locale: Seq<char> },
    InvalidLocale { locale: Seq<char> },
}

impl View for LangError {
    type V = LangErrorView;

    open spec fn view(&self) -> LangErrorView {
        match self {
            LangError::Io { locale, cause } => LangErrorView::Io { locale: locale@, cause: cause@ },
            LangError::Parse { locale, cause } => LangErrorView::Parse {
                locale: locale@,
                cause: cause@,
            },
            LangError::NotLoaded { locale } => LangErrorView::NotLoaded { locale: locale@ },
            LangError::InvalidLocale { locale } => LangErrorView::InvalidLocale { locale: locale@ },
        }
    }
}

/// The error of a result, taken by its view.
pub open spec fn err_view<T>(r: Result<T, LangError>) -> Option<LangErrorView> {
    match r {
        Ok(_) => None,
        Err(e) => Some(e@),
    }
}

/// The human-readable description of an error.
pub open spec fn error_message(e: LangErrorView) -> Seq<char> {
    match e {
        LangErrorView::Io { locale, cause } => "failed to read language file for '"@ + locale
            + "': "@ + cause,
        LangErrorView::Parse { locale, cause } => "failed to parse language file for '"@ + locale
            + "': "@ + cause,
        LangErrorView::NotLoaded { locale } => "locale '"@ + locale + "' has not been loaded"@,
        LangErrorView::InvalidLocale { locale } => "locale '"@ + locale
            + "' is invalid; expected a single locale name without path separators"@,
    }
}

impl LangError {
    /// The human-readable description of this error.
    pub fn to_string(&self) -> (r: String)
        ensures
            r@ == error_message(self@),
    {
        match self {
            LangError::Io { locale, cause } => {
                let mut s = String::from_str("failed to read language file for '");
                s.append(locale.as_str());
                s.append("': ");
                s.append(cause.as_str());
                s
            },
            LangError::Parse { locale, cause } => {
                let mut s = String::from_str("failed to parse language file for '");
                s.append(locale.as_str());
                s.append("': ");
                s.append(cause.as_str());
                s
            },
            LangError::NotLoaded { locale } => {
                let mut s = String::from_str("locale '");
                s.append(locale.as_str());
                s.append("' has not been loaded");
                s
            },
            LangError::InvalidLocale { locale } => {
                let mut s = String::from_str("locale '");
                s.append(locale.as_str());
                s.append("' is invalid; expected a single locale name without path separators");
                s
            },
        }
    }
}

} // verus!
