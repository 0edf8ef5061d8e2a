//! The registry's closed enumerations and their textual forms.

use vstd::prelude::*;

use crate::error::ParseError;
use crate::strutil::str_eq;

verus! {

/// Access level of a registered user.
#[derive(Debug, Copy, Clone, Eq, PartialEq, Structural, Hash)]
pub enum UserGroup {
    User,
    Admin,
    Banned,
}

/// Kind of a dependency edge between packages.
#[derive(Debug, Copy, Clone, Eq, PartialEq, Structural, Hash)]
pub enum DependencyType {
    BuildRequire,
    RuntimeRequire,
    Optional,
}

/// Kind of an entry of a version's file tree.
#[derive(Debug, Copy, Clone, Eq, PartialEq, Structural, Hash)]
pub enum NodeType {
    File,
    Directory,
}

/// Language tag of a localized text bundle.
#[derive(Debug, Copy, Clone, Eq, PartialEq, Structural, Hash)]
pub enum Language {
    Russian,
    English,
}

impl UserGroup {
    pub open spec fn spec_str(self) -> Seq<char> {
        match self {
            UserGroup::User => "user"@,
            UserGroup::Admin => "admin"@,
            UserGroup::Banned => "banned"@,
        }
    }

    /// The canonical textual form, as stored and sent on the wire.
    pub fn as_str(&self) -> (r: &'static str)
        ensures
            r@ == self.spec_str(),
    {
        match self {
            UserGroup::User => "user",
            UserGroup::Admin => "admin",
            UserGroup::Banned => "banned",
        }
    }

    /// Parses the canonical textual form; every other string is rejected.
    pub fn from_str(s: &str) -> (r: Result<UserGroup, ParseError>)
        ensures
            r is Ok <==> (s@ == "user"@ || s@ == "admin"@ || s@ == "banned"@),
            r is Ok ==> r->Ok_0.spec_str() == s@,
            r is Err ==> (match r->Err_0 {
                ParseError::UnknownGroup { group } => group@ == s@,
                _ => false,
            }),
    {
        if str_eq(s, "user") {
            Ok(UserGroup::User)
        } else if str_eq(s, "admin") {
            Ok(UserGroup::Admin)
        } else if str_eq(s, "banned") {
            Ok(UserGroup::Banned)
        } else {
            Err(ParseError::UnknownGroup { group: s.to_owned() })
        }
    }
}

impl DependencyType {
    pub open spec fn spec_str(self) -> Seq<char> {
        match self {
            DependencyType::BuildRequire => "build-require"@,
            DependencyType::RuntimeRequire => "runtime-require"@,
            DependencyType::Optional => "optional"@,
        }
    }

    /// The canonical textual form, as stored and sent on the wire.
    pub fn as_str(&self) -> (r: &'static str)
        ensures
            r@ == self.spec_str(),
    {
        match self {
            DependencyType::BuildRequire => "build-require",
            DependencyType::RuntimeRequire => "runtime-require",
            DependencyType::Optional => "optional",
        }
    }

    /// Parses the canonical textual form; every other string is rejected.
    pub fn from_str(s: &str) -> (r: Result<DependencyType, ParseError>)
        ensures
            r is Ok <==> (s@ == "build-require"@ || s@ == "runtime-require"@
                || s@ == "optional"@),
            r is Ok ==> r->Ok_0.spec_str() == s@,
            r is Err ==> (match r->Err_0 {
                ParseError::UnknownDependencyType { name } => name@ == s@,
                _ => false,
            }),
    {
        if str_eq(s, "build-require") {
            Ok(DependencyType::BuildRequire)
        } else if str_eq(s, "runtime-require") {
            Ok(DependencyType::RuntimeRequire)
        } else if str_eq(s, "optional") {
            Ok(DependencyType::Optional)
        } else {
            Err(ParseError::UnknownDependencyType { name: s.to_owned() })
        }
    }
}

impl NodeType {
    pub open spec fn spec_str(self) -> Seq<char> {
        match self {
            NodeType::File => "file"@,
            NodeType::Directory => "dir"@,
        }
    }

    /// The canonical textual form, as stored and sent on the wire.
    pub fn as_str(&self) -> (r: &'static str)
        ensures
            r@ == self.spec_str(),
    {
        match self {
            NodeType::File => "file",
            NodeType::Directory => "dir",
        }
    }

    /// Parses a textual form, long or abbreviated; every other string is rejected.
    pub fn from_str(s: &str) -> (r: Result<NodeType, ParseError>)
        ensures
            r == Ok::<NodeType, ParseError>(NodeType::File)
                <==> (s@ == "f"@ || s@ == "file"@),
            r == Ok::<NodeType, ParseError>(NodeType::Directory)
                <==> (s@ == "d"@ || s@ == "dir"@ || s@ == "directory"@),
            r is Err ==> (match r->Err_0 {
                ParseError::UnknownNodeType { name } => name@ == s@,
                _ => false,
            }),
    {
        proof {
            reveal_strlit("f");
            reveal_strlit("file");
            reveal_strlit("d");
            reveal_strlit("dir");
            reveal_strlit("directory");
            assert("f"@.len() == 1 && "file"@.len() == 4 && "d"@.len() == 1
                && "dir"@.len() == 3 && "directory"@.len() == 9);
            assert("f"@[0] == 'f' && "d"@[0] == 'd');
        }
        if str_eq(s, "f") || str_eq(s, "file") {
            Ok(NodeType::File)
        } else if str_eq(s, "d") || str_eq(s, "dir") || str_eq(s, "directory") {
            Ok(NodeType::Directory)
        } else {
            Err(ParseError::UnknownNodeType { name: s.to_owned() })
        }
    }
}

impl Language {
    pub open spec fn spec_str(self) -> Seq<char> {
        match self {
            Language::Russian => "ru"@,
            Language::English => "en"@,
        }
    }

    /// The canonical textual form, as stored and sent on the wire.
    pub fn as_str(&self) -> (r: &'static str)
        ensures
            r@ == self.spec_str(),
    {
        match self {
            Language::Russian => "ru",
            Language::English => "en",
        }
    }

    /// Parses a textual form, long or abbreviated; every other string is rejected.
    pub fn from_str(s: &str) -> (r: Result<Language, ParseError>)
        ensures
            r == Ok::<Language, ParseError>(Language::Russian)
                <==> (s@ == "ru"@ || s@ == "rus"@ || s@ == "russian"@),
            r == Ok::<Language, ParseError>(Language::English)
                <==> (s@ == "en"@ || s@ == "eng"@ || s@ == "english"@),
            r is Err ==> (match r->Err_0 {
                ParseError::UnknownLanguage { language } => language@ == s@,
                _ => false,
            }),
    {
        proof {
            reveal_strlit("ru");
            reveal_strlit("rus");
            reveal_strlit("russian");
            reveal_strlit("en");
            reveal_strlit("eng");
            reveal_strlit("english");
            assert("ru"@.len() == 2 && "rus"@.len() == 3 && "russian"@.len() == 7
                && "en"@.len() == 2 && "eng"@.len() == 3 && "english"@.len() == 7);
            assert("ru"@[0] == 'r' && "rus"@[0] == 'r' && "russian"@[0] == 'r'
                && "en"@[0] == 'e' && "eng"@[0] == 'e' && "english"@[0] == 'e');
        }
        if str_eq(s, "ru") || str_eq(s, "rus") || str_eq(s, "russian") {
            Ok(Language::Russian)
        } else if str_eq(s, "en") || str_eq(s, "eng") || str_eq(s, "english") {
            Ok(Language::English)
        } else {
            Err(ParseError::UnknownLanguage { language: s.to_owned() })
        }
    }
}

} // verus!
