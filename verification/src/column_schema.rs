//! Schema of one column.

use crate::datum::DatumKind;
use vstd::prelude::*;

verus! {

/// Id of a column within its table.
pub type ColumnId = u32;

/// The id of a column that has not been given one yet.
pub const COLUMN_ID_UNINIT: ColumnId = 0;

/// Why a column schema cannot be built.
#[derive(Clone, Copy, Debug, PartialEq, Eq, Structural)]
pub enum Error {
    /// A tag column must be of a kind that can be part of a key.
    InvalidTagType { data_type: DatumKind },
    /// Only string columns can be dictionary encoded.
    InvalidDictionaryType { data_type: DatumKind },
}

/// The expression that gives a column its value where a row has none.
#[derive(Debug, PartialEq, Eq)]
pub enum DefaultValue {
    /// A number literal, as written.
    Number(String),
    /// The value of another column of the row.
    Identifier(String),
    /// The sum of two expressions.
    Plus(Box<DefaultValue>, Box<DefaultValue>),
}

impl Clone for DefaultValue {
    fn clone(&self) -> (copy: DefaultValue)
        ensures
            copy == *self,
        decreases self,
    {
        match self {
            DefaultValue::Number(text) => DefaultValue::Number(text.clone()),
            DefaultValue::Identifier(name) => DefaultValue::Identifier(name.clone()),
            DefaultValue::Plus(left, right) => {
                let l: DefaultValue = (**left).clone();
                let r: DefaultValue = (**right).clone();
                DefaultValue::Plus(Box::new(l), Box::new(r))
            },
        }
    }
}

/// Schema of one column.
#[derive(Debug, PartialEq, Eq)]
pub struct ColumnSchema {
    pub id: ColumnId,
    pub name: String,
    pub data_type: DatumKind,
    pub is_nullable: bool,
    pub is_tag: bool,
    pub is_dictionary: bool,
    pub comment: String,
    pub default_value: Option<DefaultValue>,
}

impl Clone for ColumnSchema {
    fn clone(&self) -> (copy: ColumnSchema)
        ensures
            copy == *self,
    {
        let default_value = match &self.default_value {
            Some(value) => Some(value.clone()),
            None => None,
        };
        ColumnSchema {
            id: self.id,
            name: self.name.clone(),
            data_type: self.data_type,
            is_nullable: self.is_nullable,
            is_tag: self.is_tag,
            is_dictionary: self.is_dictionary,
            comment: self.comment.clone(),
            default_value,
        }
    }
}

/// Collects the properties of a column, then checks them in `build`.
#[derive(Debug)]
pub struct Builder {
    pub id: ColumnId,
    pub name: String,
    pub data_type: DatumKind,
    pub is_nullable: bool,
    pub is_tag: bool,
    pub is_dictionary: bool,
    pub comment: String,
    pub default_value: Option<DefaultValue>,
}

impl Builder {
    /// The error that `build` reports, if any: a tag of a kind that no key can
    /// hold, else a dictionary on a column that is no string.
    pub open spec fn build_error(self) -> Option<Error> {
        if self.is_tag && !self.data_type.spec_is_key_kind() {
            Some(Error::InvalidTagType { data_type: self.data_type })
        } else if self.is_dictionary && !self.data_type.spec_is_dictionary_kind() {
            Some(Error::InvalidDictionaryType { data_type: self.data_type })
        } else {
            None
        }
    }

    /// The column that `build` returns where it reports no error.
    pub open spec fn built(self) -> ColumnSchema {
        ColumnSchema {
            id: self.id,
            name: self.name,
            data_type: self.data_type,
            is_nullable: self.is_nullable,
            is_tag: self.is_tag,
            is_dictionary: self.is_dictionary,
            comment: self.comment,
            default_value: self.default_value,
        }
    }

    /// A column of the given name and kind: without id, not nullable, no tag,
    /// not dictionary encoded, without comment or default value.
    pub fn new(name: String, data_type: DatumKind) -> (b: Builder)
        ensures
            b.id == COLUMN_ID_UNINIT,
            b.name == name,
            b.data_type == data_type,
            !b.is_nullable,
            !b.is_tag,
            !b.is_dictionary,
            b.comment@ == Seq::<char>::empty(),
            b.default_value.is_none(),
    {
        Builder {
            id: COLUMN_ID_UNINIT,
            name,
            data_type,
            is_nullable: false,
            is_tag: false,
            is_dictionary: false,
            comment: String::new(),
            default_value: None,
        }
    }

    pub fn id(self, id: ColumnId) -> (b: Builder)
        ensures
            b == (Builder { id, ..self }),
    {
        let mut b = self;
        b.id = id;
        b
    }

    pub fn is_nullable(self, is_nullable: bool) -> (b: Builder)
        ensures
            b == (Builder { is_nullable, ..self }),
    {
        let mut b = self;
        b.is_nullable = is_nullable;
        b
    }

    pub fn is_tag(self, is_tag: bool) -> (b: Builder)
        ensures
            b == (Builder { is_tag, ..self }),
    {
        let mut b = self;
        b.is_tag = is_tag;
        b
    }

    pub fn is_dictionary(self, is_dictionary: bool) -> (b: Builder)
        ensures
            b == (Builder { is_dictionary, ..self }),
    {
        let mut b = self;
        b.is_dictionary = is_dictionary;
        b
    }

    pub fn comment(self, comment: String) -> (b: Builder)
        ensures
            b == (Builder { comment, ..self }),
    {
        let mut b = self;
        b.comment = comment;
        b
    }

    pub fn default_value(self, default_value: Option<DefaultValue>) -> (b: Builder)
        ensures
            b == (Builder { default_value, ..self }),
    {
        let mut b = self;
        b.default_value = default_value;
        b
    }

    /// Checks the properties against the column's kind and returns the column.
    pub fn build(self) -> (r: Result<ColumnSchema, Error>)
        ensures
            match r {
                Ok(column) => self.build_error().is_none() && column == self.built(),
                Err(e) => self.build_error() == Some(e),
            },
    {
        if self.is_tag && !self.data_type.is_key_kind() {
            return Err(Error::InvalidTagType { data_type: self.data_type });
        }
        if self.is_dictionary && !self.data_type.is_dictionary_kind() {
            return Err(Error::InvalidDictionaryType { data_type: self.data_type });
        }
        Ok(
            ColumnSchema {
                id: self.id,
                name: self.name,
                data_type: self.data_type,
                is_nullable: self.is_nullable,
                is_tag: self.is_tag,
                is_dictionary: self.is_dictionary,
                comment: self.comment,
                default_value: self.default_value,
            },
        )
    }
}

} // verus!
