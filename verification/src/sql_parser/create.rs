//! `CREATE` statements.

use vstd::prelude::*;

use crate::sql_parser::checks::{one_byte, is_one_byte, fits_i32, is_i32, first_children};
use crate::sql_parser::expr::{composite_type_definition, expr};
use crate::sql_parser::keywords::{Keyword, keyword_ident};
use crate::sql_parser::kind::{Kind};
use crate::sql_parser::names::{data_type, database_name, deferred_item_name, identifier, identifier_list, item_name, literal_int, literal_string, literal_uint, parenthesized_column_list, raw_name, schema_name};
use crate::sql_parser::options::{data_type_option_value, name_sequence, object_option_value, optional_option_value};
use crate::sql_parser::outcome::Out::{Failed, Got};
use crate::sql_parser::outcome::{Out, Failure, FailureView, error_view, error};
use crate::sql_parser::parser::{Parser, Input, at_keyword, at_keywords2, at_keywords3, at_keywords4, at_token, token_at, position, keyword, token, one_of, one_keyword, onward, past, expected_at};
use crate::sql_parser::query::{order_by_expr_list, query};
use crate::sql_parser::show::{optional_in_cluster};
use crate::sql_parser::syntax::{group_tree_views, Tree, TreeView, Trees, node, list, trees0, trees1, trees2, trees3, trees4, trees5, trees6, trees8, trees11};
use crate::sql_parser::text::{no_text};
use crate::sql_parser::token::{Token, TokenView};

verus! {

/// What [`Parser::parse_create`] yields from the token at `i` on.
#[verifier::opaque]
pub open spec fn create(p: Input, i: int) -> Out<TreeView>
{
    if at_keyword(p, i, Keyword::DATABASE) {
        create_database(p, i)
    } else {
        if at_keyword(p, i, Keyword::SCHEMA) {
            create_schema(p, i)
        } else {
            if at_keyword(p, i, Keyword::SINK) {
                create_sink(p, i)
            } else {
                if at_keyword(p, i, Keyword::TYPE) {
                    create_type(p, i)
                } else {
                    if at_keyword(p, i, Keyword::ROLE) {
                        create_role(p, i)
                    } else {
                        if at_keyword(p, i, Keyword::CLUSTER) {
                            let i = i + 1;
                            if at_keyword(p, i, Keyword::REPLICA) {
                                create_cluster_replica(p, i)
                            } else {
                                create_cluster(p, i)
                            }
                        } else {
                            if at_keyword(p, i, Keyword::INDEX) {
                                create_index(p, i)
                            } else {
                                if at_keywords2(p, i, Keyword::DEFAULT, Keyword::INDEX) {
                                    create_index(p, i)
                                } else {
                                    if at_keyword(p, i, Keyword::SOURCE) {
                                        create_source(p, i)
                                    } else {
                                        if at_keyword(p, i, Keyword::SUBSOURCE) {
                                            create_subsource(p, i)
                                        } else {
                                            if at_keyword(p, i, Keyword::TABLE) {
                                                create_table(p, i)
                                            } else {
                                                if at_keywords2(p, i, Keyword::TEMP, Keyword::TABLE) {
                                                    create_table(p, i)
                                                } else {
                                                    if at_keywords2(p, i, Keyword::TEMPORARY, Keyword::TABLE) {
                                                        create_table(p, i)
                                                    } else {
                                                        if at_keyword(p, i, Keyword::SECRET) {
                                                            create_secret(p, i)
                                                        } else {
                                                            if at_keyword(p, i, Keyword::CONNECTION) {
                                                                create_connection(p, i)
                                                            } else {
                                                                if at_keywords2(p, i, Keyword::MATERIALIZED, Keyword::VIEW) {
                                                                    create_materialized_view(p, i)
                                                                } else {
                                                                    if at_keywords4(p, i, Keyword::OR, Keyword::REPLACE, Keyword::MATERIALIZED, Keyword::VIEW) {
                                                                        create_materialized_view(p, i)
                                                                    } else {
                                                                        if at_keyword(p, i, Keyword::USER) {
                                                                            Failed(error_view(position(p, i), no_text() + "CREATE USER is not supported, for more information consult the documentation at https://materialize.com/docs/sql/create-role/#details"@), i)
                                                                        } else {
                                                                            let start = i;
                                                                            let i = if at_keywords2(p, i, Keyword::OR, Keyword::REPLACE) { i + 2 } else { i };
                                                                            match one_of(p, i, seq![Keyword::TEMP, Keyword::TEMPORARY]) {
                                                                                Some(_) => {
                                                                                    let i = i + 1;
                                                                                    if at_keyword(p, i, Keyword::VIEW) {
                                                                                        let i = i + 1;
                                                                                        let i = start;
                                                                                        create_view(p, i)
                                                                                    } else {
                                                                                        Failed(expected_at(p, i, "DATABASE, SCHEMA, ROLE, TYPE, INDEX, SINK, SOURCE, TABLE, SECRET, [OR REPLACE] [TEMPORARY] VIEW, or [OR REPLACE] MATERIALIZED VIEW after CREATE"@), i)
                                                                                    }
                                                                                },
                                                                                None => {
                                                                                    if at_keyword(p, i, Keyword::VIEW) {
                                                                                        let i = i + 1;
                                                                                        let i = start;
                                                                                        create_view(p, i)
                                                                                    } else {
                                                                                        Failed(expected_at(p, i, "DATABASE, SCHEMA, ROLE, TYPE, INDEX, SINK, SOURCE, TABLE, SECRET, [OR REPLACE] [TEMPORARY] VIEW, or [OR REPLACE] MATERIALIZED VIEW after CREATE"@), i)
                                                                                    }
                                                                                },
                                                                            }
                                                                        }
                                                                    }
                                                                }
                                                            }
                                                        }
                                                    }
                                                }
                                            }
                                        }
                                    }
                                }
                            }
                        }
                    }
                }
            }
        }
    }
}

impl Parser {
    /// Parse a SQL CREATE statement.
    #[verifier::rlimit(60)]
    pub fn parse_create(&mut self) -> (r: Result<Tree, Failure>)
        requires
            old(self).ready(),
        ensures
            final(self).follows(*old(self), create(old(self).input(), old(self).index as int), r),
            r is Ok ==> final(self).index > old(self).index,
    {
        broadcast use group_tree_views;

        proof {
            reveal(create);
        }
        if self.peek_keyword(Keyword::DATABASE) {
            self.parse_create_database()
        } else if self.peek_keyword(Keyword::SCHEMA) {
            self.parse_create_schema()
        } else if self.peek_keyword(Keyword::SINK) {
            self.parse_create_sink()
        } else if self.peek_keyword(Keyword::TYPE) {
            self.parse_create_type()
        } else if self.peek_keyword(Keyword::ROLE) {
            self.parse_create_role()
        } else if self.parse_keyword(Keyword::CLUSTER) {
            if self.peek_keyword(Keyword::REPLICA) {
                self.parse_create_cluster_replica()
            } else {
                self.parse_create_cluster()
            }
        } else if self.peek_keyword(Keyword::INDEX) {
            self.parse_create_index()
        } else if self.peek_keywords2(Keyword::DEFAULT, Keyword::INDEX) {
            self.parse_create_index()
        } else if self.peek_keyword(Keyword::SOURCE) {
            self.parse_create_source()
        } else if self.peek_keyword(Keyword::SUBSOURCE) {
            self.parse_create_subsource()
        } else if self.peek_keyword(Keyword::TABLE) {
            self.parse_create_table()
        } else if self.peek_keywords2(Keyword::TEMP, Keyword::TABLE) {
            self.parse_create_table()
        } else if self.peek_keywords2(Keyword::TEMPORARY, Keyword::TABLE) {
            self.parse_create_table()
        } else if self.peek_keyword(Keyword::SECRET) {
            self.parse_create_secret()
        } else if self.peek_keyword(Keyword::CONNECTION) {
            self.parse_create_connection()
        } else if self.peek_keywords2(Keyword::MATERIALIZED, Keyword::VIEW) {
            self.parse_create_materialized_view()
        } else if self.peek_keywords4(Keyword::OR, Keyword::REPLACE, Keyword::MATERIALIZED, Keyword::VIEW) {
            self.parse_create_materialized_view()
        } else if self.peek_keyword(Keyword::USER) {
            let pos: usize = self.peek_pos();
            Err(error(pos, String::new().concat("CREATE USER is not supported, for more information consult the documentation at https://materialize.com/docs/sql/create-role/#details")))
        } else {
            let start: usize = self.index;
            let _ = self.parse_keywords2(Keyword::OR, Keyword::REPLACE);
            let choices: [Keyword; 2] = [Keyword::TEMP, Keyword::TEMPORARY];
            assert(choices@ =~= seq![Keyword::TEMP, Keyword::TEMPORARY]);
            match self.parse_one_of_keywords(&choices) {
                Some(_) => {
                    if self.parse_keyword(Keyword::VIEW) {
                        self.index = start;
                        self.parse_create_view()
                    } else {
                        Err(self.expected_here("DATABASE, SCHEMA, ROLE, TYPE, INDEX, SINK, SOURCE, TABLE, SECRET, [OR REPLACE] [TEMPORARY] VIEW, or [OR REPLACE] MATERIALIZED VIEW after CREATE"))
                    }
                },
                None => {
                    if self.parse_keyword(Keyword::VIEW) {
                        self.index = start;
                        self.parse_create_view()
                    } else {
                        Err(self.expected_here("DATABASE, SCHEMA, ROLE, TYPE, INDEX, SINK, SOURCE, TABLE, SECRET, [OR REPLACE] [TEMPORARY] VIEW, or [OR REPLACE] MATERIALIZED VIEW after CREATE"))
                    }
                },
            }
        }
    }
}

/// What [`Parser::parse_create_database`] yields from the token at `i` on.
#[verifier::opaque]
pub open spec fn create_database(p: Input, i: int) -> Out<TreeView>
{
    match keyword(p, i, Keyword::DATABASE) { Failed(e, i) => Failed(e, i), Got(_, i) => {
    match if_not_exists(p, i) { Failed(e, i) => Failed(e, i), Got(if_not_exists, i) => {
    match database_name(p, i) { Failed(e, i) => Failed(e, i), Got(name, i) => {
    Got(TreeView::Node(Kind::CreateDatabase, seq![name, TreeView::Flag(if_not_exists)]), i)
    }}
    }}
    }}
}

impl Parser {
    /// Parse a `CREATE DATABASE` statement.
    pub fn parse_create_database(&mut self) -> (r: Result<Tree, Failure>)
        requires
            old(self).ready(),
        ensures
            final(self).follows(*old(self), create_database(old(self).input(), old(self).index as int), r),
            r is Ok ==> final(self).index > old(self).index,
            r matches Err(e) ==> !(e@ is Unhandled),
    {
        broadcast use group_tree_views;

        proof {
            reveal(create_database);
        }
        self.expect_keyword(Keyword::DATABASE)?;
        let if_not_exists = self.parse_if_not_exists()?;
        let name = self.parse_database_name()?;
        Ok(node(Kind::CreateDatabase, trees2(name, Tree::Flag(if_not_exists))))
    }
}

/// What [`Parser::parse_create_schema`] yields from the token at `i` on.
#[verifier::opaque]
pub open spec fn create_schema(p: Input, i: int) -> Out<TreeView>
{
    match keyword(p, i, Keyword::SCHEMA) { Failed(e, i) => Failed(e, i), Got(_, i) => {
    match if_not_exists(p, i) { Failed(e, i) => Failed(e, i), Got(if_not_exists, i) => {
    match schema_name(p, i) { Failed(e, i) => Failed(e, i), Got(name, i) => {
    Got(TreeView::Node(Kind::CreateSchema, seq![name, TreeView::Flag(if_not_exists)]), i)
    }}
    }}
    }}
}

impl Parser {
    /// Parse a `CREATE SCHEMA` statement.
    pub fn parse_create_schema(&mut self) -> (r: Result<Tree, Failure>)
        requires
            old(self).ready(),
        ensures
            final(self).follows(*old(self), create_schema(old(self).input(), old(self).index as int), r),
            r is Ok ==> final(self).index > old(self).index,
            r matches Err(e) ==> !(e@ is Unhandled),
    {
        broadcast use group_tree_views;

        proof {
            reveal(create_schema);
        }
        self.expect_keyword(Keyword::SCHEMA)?;
        let if_not_exists = self.parse_if_not_exists()?;
        let name = self.parse_schema_name()?;
        Ok(node(Kind::CreateSchema, trees2(name, Tree::Flag(if_not_exists))))
    }
}

/// What [`Parser::parse_if_exists`] yields from the token at `i` on.
#[verifier::opaque]
pub open spec fn if_exists(p: Input, i: int) -> Out<bool>
{
    if at_keyword(p, i, Keyword::IF) {
        let i = i + 1;
        match keyword(p, i, Keyword::EXISTS) { Failed(e, i) => Failed(e, i), Got(_, i) => {
        Got(true, i)
        }}
    } else {
        Got(false, i)
    }
}

impl Parser {
    /// Parse `IF EXISTS`, if it is there.
    pub fn parse_if_exists(&mut self) -> (r: Result<bool, Failure>)
        requires
            old(self).ready(),
        ensures
            final(self).follows(*old(self), if_exists(old(self).input(), old(self).index as int), r),
            r matches Err(e) ==> !(e@ is Unhandled),
    {
        broadcast use group_tree_views;

        proof {
            reveal(if_exists);
        }
        if self.parse_keyword(Keyword::IF) {
            self.expect_keyword(Keyword::EXISTS)?;
            Ok(true)
        } else {
            Ok(false)
        }
    }
}

/// What [`Parser::parse_if_not_exists`] yields from the token at `i` on.
#[verifier::opaque]
pub open spec fn if_not_exists(p: Input, i: int) -> Out<bool>
{
    if at_keyword(p, i, Keyword::IF) {
        let i = i + 1;
        match keyword(p, i, Keyword::NOT) { Failed(e, i) => Failed(e, i), Got(_, i) => {
        match keyword(p, i, Keyword::EXISTS) { Failed(e, i) => Failed(e, i), Got(_, i) => {
        Got(true, i)
        }}}}
    } else {
        Got(false, i)
    }
}

impl Parser {
    /// Parse `IF NOT EXISTS`, if it is there.
    pub fn parse_if_not_exists(&mut self) -> (r: Result<bool, Failure>)
        requires
            old(self).ready(),
        ensures
            final(self).follows(*old(self), if_not_exists(old(self).input(), old(self).index as int), r),
            r matches Err(e) ==> !(e@ is Unhandled),
    {
        broadcast use group_tree_views;

        proof {
            reveal(if_not_exists);
        }
        if self.parse_keyword(Keyword::IF) {
            self.expect_keyword(Keyword::NOT)?;
            self.expect_keyword(Keyword::EXISTS)?;
            Ok(true)
        } else {
            Ok(false)
        }
    }
}

/// What [`Parser::parse_csv_header`] yields from the token at `i` on.
#[verifier::opaque]
pub open spec fn csv_header(p: Input, i: int) -> Out<TreeView>
{
    match parenthesized_column_list(p, i, false) { Failed(e, i) => Failed(e, i), Got(names, i) => {
    Got(TreeView::Node(Kind::CsvHeader, seq![names]), i)
    }}
}

impl Parser {
    /// Parse the columns of CSV data, `HEADER` being consumed.
    pub fn parse_csv_header(&mut self) -> (r: Result<Tree, Failure>)
        requires
            old(self).ready(),
        ensures
            final(self).follows(*old(self), csv_header(old(self).input(), old(self).index as int), r),
            r matches Err(e) ==> !(e@ is Unhandled),
    {
        broadcast use group_tree_views;

        proof {
            reveal(csv_header);
        }
        let names = self.parse_parenthesized_column_list(false)?;
        Ok(node(Kind::CsvHeader, trees1(names)))
    }
}

/// What [`Parser::parse_format`] yields from the token at `i` on.
#[verifier::opaque]
pub open spec fn format(p: Input, i: int) -> Out<TreeView>
{
    if at_keyword(p, i, Keyword::AVRO) {
        let i = i + 1;
        match keyword(p, i, Keyword::USING) { Failed(e, i) => Failed(e, i), Got(_, i) => {
        match avro_schema(p, i) { Failed(e, i) => Failed(e, i), Got(schema, i) => {
        Got(TreeView::Node(Kind::AvroFormat, seq![schema]), i)
        }}
        }}
    } else {
        if at_keyword(p, i, Keyword::PROTOBUF) {
            let i = i + 1;
            match protobuf_schema(p, i) { Failed(e, i) => Failed(e, i), Got(schema, i) => {
            Got(TreeView::Node(Kind::ProtobufFormat, seq![schema]), i)
            }}
        } else {
            if at_keyword(p, i, Keyword::REGEX) {
                let i = i + 1;
                match literal_string(p, i) { Failed(e, i) => Failed(e, i), Got(regex, i) => {
                Got(TreeView::Node(Kind::RegexFormat, seq![TreeView::Text(regex)]), i)
                }}
            } else {
                if at_keyword(p, i, Keyword::CSV) {
                    let i = i + 1;
                    match keyword(p, i, Keyword::WITH) { Failed(e, i) => Failed(e, i), Got(_, i) => {
                    match {
                        if at_keyword(p, i, Keyword::HEADER) {
                            let i = i + 1;
                            csv_header(p, i)
                        } else {
                            if at_keyword(p, i, Keyword::HEADERS) {
                                let i = i + 1;
                                csv_header(p, i)
                            } else {
                                match literal_uint(p, i) { Failed(e, i) => Failed(e, i), Got(n_cols, i) => {
                                match keyword(p, i, Keyword::COLUMNS) { Failed(e, i) => Failed(e, i), Got(_, i) => {
                                Got(TreeView::Node(Kind::CsvCount, seq![TreeView::Num(n_cols)]), i)
                                }}
                                }}
                            }
                        }
                    } { Failed(e, i) => Failed(e, i), Got(columns, i) => {
                    match {
                        if at_keywords2(p, i, Keyword::DELIMITED, Keyword::BY) {
                            let i = i + 2;
                            match literal_string(p, i) { Failed(e, i) => Failed(e, i), Got(s, i) => {
                            if one_byte(s) {
                                Got(TreeView::Text(s), i)
                            } else {
                                Failed(expected_at(p, i, "one-character string"@), i)
                            }
                            }}
                        } else {
                            Got(TreeView::Text(","@), i)
                        }
                    } { Failed(e, i) => Failed(e, i), Got(delimiter, i) => {
                    Got(TreeView::Node(Kind::CsvFormat, seq![columns, delimiter]), i)
                    }}
                    }}
                    }}
                } else {
                    if at_keyword(p, i, Keyword::JSON) {
                        let i = i + 1;
                        Got(TreeView::Node(Kind::JsonFormat, Seq::<TreeView>::empty()), i)
                    } else {
                        if at_keyword(p, i, Keyword::TEXT) {
                            let i = i + 1;
                            Got(TreeView::Node(Kind::TextFormat, Seq::<TreeView>::empty()), i)
                        } else {
                            if at_keyword(p, i, Keyword::BYTES) {
                                let i = i + 1;
                                Got(TreeView::Node(Kind::BytesFormat, Seq::<TreeView>::empty()), i)
                            } else {
                                Failed(expected_at(p, i, "AVRO, PROTOBUF, REGEX, CSV, JSON, TEXT, or BYTES"@), i)
                            }
                        }
                    }
                }
            }
        }
    }
}

impl Parser {
    /// Parse a data format.
    #[verifier::rlimit(60)]
    pub fn parse_format(&mut self) -> (r: Result<Tree, Failure>)
        requires
            old(self).ready(),
        ensures
            final(self).follows(*old(self), format(old(self).input(), old(self).index as int), r),
            r is Ok ==> final(self).index > old(self).index,
            r matches Err(e) ==> !(e@ is Unhandled),
    {
        broadcast use group_tree_views;

        proof {
            reveal(format);
        }
        if self.parse_keyword(Keyword::AVRO) {
            self.expect_keyword(Keyword::USING)?;
            let schema = self.parse_avro_schema()?;
            Ok(node(Kind::AvroFormat, trees1(schema)))
        } else if self.parse_keyword(Keyword::PROTOBUF) {
            let schema = self.parse_protobuf_schema()?;
            Ok(node(Kind::ProtobufFormat, trees1(schema)))
        } else if self.parse_keyword(Keyword::REGEX) {
            let regex = self.parse_literal_string()?;
            Ok(node(Kind::RegexFormat, trees1(Tree::Text(regex))))
        } else if self.parse_keyword(Keyword::CSV) {
            self.expect_keyword(Keyword::WITH)?;
            let columns = if self.parse_keyword(Keyword::HEADER) {
                self.parse_csv_header()?
            } else if self.parse_keyword(Keyword::HEADERS) {
                self.parse_csv_header()?
            } else {
                let n_cols = self.parse_literal_uint()?;
                self.expect_keyword(Keyword::COLUMNS)?;
                node(Kind::CsvCount, trees1(Tree::Num(n_cols)))
            };
            let delimiter = if self.parse_keywords2(Keyword::DELIMITED, Keyword::BY) {
                let s = self.parse_literal_string()?;
                if is_one_byte(s.as_str()) {
                    Tree::Text(s)
                } else {
                    return Err(self.expected_here("one-character string"));
                }
            } else {
                Tree::Text(String::from_str(","))
            };
            Ok(node(Kind::CsvFormat, trees2(columns, delimiter)))
        } else if self.parse_keyword(Keyword::JSON) {
            Ok(node(Kind::JsonFormat, trees0()))
        } else if self.parse_keyword(Keyword::TEXT) {
            Ok(node(Kind::TextFormat, trees0()))
        } else if self.parse_keyword(Keyword::BYTES) {
            Ok(node(Kind::BytesFormat, trees0()))
        } else {
            Err(self.expected_here("AVRO, PROTOBUF, REGEX, CSV, JSON, TEXT, or BYTES"))
        }
    }
}

/// What [`Parser::parse_avro_schema`] yields from the token at `i` on.
#[verifier::opaque]
pub open spec fn avro_schema(p: Input, i: int) -> Out<TreeView>
{
    if at_keywords3(p, i, Keyword::CONFLUENT, Keyword::SCHEMA, Keyword::REGISTRY) {
        let i = i + 3;
        match csr_connection_avro(p, i) { Failed(e, i) => Failed(e, i), Got(csr_connection, i) => {
        Got(TreeView::Node(Kind::AvroCsr, seq![csr_connection]), i)
        }}
    } else {
        if at_keyword(p, i, Keyword::SCHEMA) {
            let i = i + 1;
            match literal_string(p, i) { Failed(e, i) => Failed(e, i), Got(schema, i) => {
            match {
                if at_token(p, i, TokenView::LParen) {
                    let i = i + 1;
                    match avro_schema_option_list(p, i, Seq::<TreeView>::empty()) { Failed(e, i) => Failed(e, i), Got(os, i) => {
                    match token(p, i, TokenView::RParen) { Failed(e, i) => Failed(e, i), Got(_, i) => {
                    Got(TreeView::List(os), i)
                    }}
                    }}
                } else {
                    Got(TreeView::List(Seq::<TreeView>::empty()), i)
                }
            } { Failed(e, i) => Failed(e, i), Got(with_options, i) => {
            Got(TreeView::Node(Kind::AvroInline, seq![TreeView::Text(schema), with_options]), i)
            }}
            }}
        } else {
            Failed(expected_at(p, i, "CONFLUENT SCHEMA REGISTRY or SCHEMA"@), i)
        }
    }
}

impl Parser {
    /// Parse where an Avro schema comes from.
    pub fn parse_avro_schema(&mut self) -> (r: Result<Tree, Failure>)
        requires
            old(self).ready(),
        ensures
            final(self).follows(*old(self), avro_schema(old(self).input(), old(self).index as int), r),
            r is Ok ==> final(self).index > old(self).index,
            r matches Err(e) ==> !(e@ is Unhandled),
    {
        broadcast use group_tree_views;

        proof {
            reveal(avro_schema);
        }
        if self.parse_keywords3(Keyword::CONFLUENT, Keyword::SCHEMA, Keyword::REGISTRY) {
            let csr_connection = self.parse_csr_connection_avro()?;
            Ok(node(Kind::AvroCsr, trees1(csr_connection)))
        } else if self.parse_keyword(Keyword::SCHEMA) {
            let schema = self.parse_literal_string()?;
            let with_options = if self.consume_token(&Token::LParen) {
                let os = self.parse_avro_schema_option_list(trees0())?;
                self.expect_token(&Token::RParen)?;
                list(os)
            } else {
                list(trees0())
            };
            Ok(node(Kind::AvroInline, trees2(Tree::Text(schema), with_options)))
        } else {
            Err(self.expected_here("CONFLUENT SCHEMA REGISTRY or SCHEMA"))
        }
    }
}

/// What [`Parser::parse_avro_schema_option`] yields from the token at `i` on.
#[verifier::opaque]
pub open spec fn avro_schema_option(p: Input, i: int) -> Out<TreeView>
{
    match keyword(p, i, Keyword::CONFLUENT) { Failed(e, i) => Failed(e, i), Got(_, i) => {
    match keyword(p, i, Keyword::WIRE) { Failed(e, i) => Failed(e, i), Got(_, i) => {
    match keyword(p, i, Keyword::FORMAT) { Failed(e, i) => Failed(e, i), Got(_, i) => {
    match optional_option_value(p, i) { Failed(e, i) => Failed(e, i), Got(v, i) => {
    Got(TreeView::Node(Kind::AvroSchemaOption, seq![TreeView::Node(Kind::ConfluentWireFormat, Seq::<TreeView>::empty()), v]), i)
    }}
    }}}}}}
}

impl Parser {
    /// Parse an option of an inline Avro schema.
    pub fn parse_avro_schema_option(&mut self) -> (r: Result<Tree, Failure>)
        requires
            old(self).ready(),
        ensures
            final(self).follows(*old(self), avro_schema_option(old(self).input(), old(self).index as int), r),
            r is Ok ==> final(self).index > old(self).index,
            r matches Err(e) ==> !(e@ is Unhandled),
    {
        broadcast use group_tree_views;

        proof {
            reveal(avro_schema_option);
        }
        self.expect_keyword(Keyword::CONFLUENT)?;
        self.expect_keyword(Keyword::WIRE)?;
        self.expect_keyword(Keyword::FORMAT)?;
        let v = self.parse_optional_option_value()?;
        Ok(node(Kind::AvroSchemaOption, trees2(node(Kind::ConfluentWireFormat, trees0()), v)))
    }
}

/// What [`Parser::parse_avro_schema_option_list`] yields from the token at `i` on.
#[verifier::opaque]
pub open spec fn avro_schema_option_list(p: Input, i: int, items: Seq<TreeView>) -> Out<Seq<TreeView>>
    decreases p.toks.len() - i, 0int,
{
    match past(p, i, avro_schema_option(p, i)) { Failed(e, i) => Failed(e, i), Got(item, i) => {
    if at_token(p, i, TokenView::Comma) {
        let i = i + 1;
        avro_schema_option_list(p, i, items.push(item))
    } else {
        Got(items.push(item), i)
    }
    }}
}

impl Parser {
    /// Parses one or more `avro_schema_option`, separated by commas, after those in `items`.
    pub fn parse_avro_schema_option_list(&mut self, mut items: Trees) -> (r: Result<Trees, Failure>)
        requires
            old(self).ready(),
        ensures
            final(self).follows(*old(self), avro_schema_option_list(old(self).input(), old(self).index as int, items@), r),
            r is Ok ==> final(self).index > old(self).index,
            r matches Ok(all) ==> all@.len() > items@.len(),
            r matches Err(e) ==> !(e@ is Unhandled),
        decreases old(self).tokens.len() - old(self).index, 0int,
    {
        broadcast use group_tree_views;

        proof {
            reveal(avro_schema_option_list);
        }
        let ghost before = *self;
        let ghost given = items@.len();
        let ghost goal = avro_schema_option_list(self.input(), self.index as int, items@);
        #[verifier::loop_isolation(false)]
        loop
            invariant
                self.ready(),
                self.input() == before.input(),
                self.tokens.len() == before.tokens.len(),
                before.index <= self.index,
                before == *old(self),
                given <= items@.len(),
                avro_schema_option_list(self.input(), self.index as int, items@) == goal,
            decreases self.tokens.len() - self.index,
        {
            proof {
                reveal(avro_schema_option_list);
            }
            let item = self.parse_avro_schema_option()?;
            if self.consume_token(&Token::Comma) {
                items = items.with(item);
                continue;
            } else {
                return Ok(items.with(item));
            }
        }
    }
}

/// What [`Parser::parse_protobuf_schema`] yields from the token at `i` on.
#[verifier::opaque]
pub open spec fn protobuf_schema(p: Input, i: int) -> Out<TreeView>
{
    if at_keywords4(p, i, Keyword::USING, Keyword::CONFLUENT, Keyword::SCHEMA, Keyword::REGISTRY) {
        let i = i + 4;
        match csr_connection_proto(p, i) { Failed(e, i) => Failed(e, i), Got(csr_connection, i) => {
        Got(TreeView::Node(Kind::ProtobufCsr, seq![csr_connection]), i)
        }}
    } else {
        if at_keyword(p, i, Keyword::MESSAGE) {
            let i = i + 1;
            match literal_string(p, i) { Failed(e, i) => Failed(e, i), Got(message_name, i) => {
            match keyword(p, i, Keyword::USING) { Failed(e, i) => Failed(e, i), Got(_, i) => {
            match keyword(p, i, Keyword::SCHEMA) { Failed(e, i) => Failed(e, i), Got(_, i) => {
            match literal_string(p, i) { Failed(e, i) => Failed(e, i), Got(schema, i) => {
            Got(TreeView::Node(Kind::ProtobufInline, seq![TreeView::Text(message_name), TreeView::Text(schema)]), i)
            }}
            }}
            }}
            }}
        } else {
            Failed(expected_at(p, i, "CONFLUENT SCHEMA REGISTRY or MESSAGE"@), i)
        }
    }
}

impl Parser {
    /// Parse where a Protobuf schema comes from.
    pub fn parse_protobuf_schema(&mut self) -> (r: Result<Tree, Failure>)
        requires
            old(self).ready(),
        ensures
            final(self).follows(*old(self), protobuf_schema(old(self).input(), old(self).index as int), r),
            r is Ok ==> final(self).index > old(self).index,
            r matches Err(e) ==> !(e@ is Unhandled),
    {
        broadcast use group_tree_views;

        proof {
            reveal(protobuf_schema);
        }
        if self.parse_keywords4(Keyword::USING, Keyword::CONFLUENT, Keyword::SCHEMA, Keyword::REGISTRY) {
            let csr_connection = self.parse_csr_connection_proto()?;
            Ok(node(Kind::ProtobufCsr, trees1(csr_connection)))
        } else if self.parse_keyword(Keyword::MESSAGE) {
            let message_name = self.parse_literal_string()?;
            self.expect_keyword(Keyword::USING)?;
            self.expect_keyword(Keyword::SCHEMA)?;
            let schema = self.parse_literal_string()?;
            Ok(node(Kind::ProtobufInline, trees2(Tree::Text(message_name), Tree::Text(schema))))
        } else {
            Err(self.expected_here("CONFLUENT SCHEMA REGISTRY or MESSAGE"))
        }
    }
}

/// What [`Parser::parse_csr_connection_reference`] yields from the token at `i` on.
#[verifier::opaque]
pub open spec fn csr_connection_reference(p: Input, i: int) -> Out<TreeView>
{
    match keyword(p, i, Keyword::CONNECTION) { Failed(e, i) => Failed(e, i), Got(_, i) => {
    match raw_name(p, i) { Failed(e, i) => Failed(e, i), Got(connection, i) => {
    match {
        if at_token(p, i, TokenView::LParen) {
            let i = i + 1;
            match csr_config_option_list(p, i, Seq::<TreeView>::empty()) { Failed(e, i) => Failed(e, i), Got(os, i) => {
            match token(p, i, TokenView::RParen) { Failed(e, i) => Failed(e, i), Got(_, i) => {
            Got(TreeView::List(os), i)
            }}
            }}
        } else {
            Got(TreeView::List(Seq::<TreeView>::empty()), i)
        }
    } { Failed(e, i) => Failed(e, i), Got(options, i) => {
    Got(TreeView::Node(Kind::CsrConnection, seq![connection, options]), i)
    }}
    }}
    }}
}

impl Parser {
    /// Parse a reference to a schema registry connection.
    pub fn parse_csr_connection_reference(&mut self) -> (r: Result<Tree, Failure>)
        requires
            old(self).ready(),
        ensures
            final(self).follows(*old(self), csr_connection_reference(old(self).input(), old(self).index as int), r),
            r is Ok ==> final(self).index > old(self).index,
            r matches Err(e) ==> !(e@ is Unhandled),
    {
        broadcast use group_tree_views;

        proof {
            reveal(csr_connection_reference);
        }
        self.expect_keyword(Keyword::CONNECTION)?;
        let connection = self.parse_raw_name()?;
        let options = if self.consume_token(&Token::LParen) {
            let os = self.parse_csr_config_option_list(trees0())?;
            self.expect_token(&Token::RParen)?;
            list(os)
        } else {
            list(trees0())
        };
        Ok(node(Kind::CsrConnection, trees2(connection, options)))
    }
}

/// What [`Parser::parse_csr_config_option`] yields from the token at `i` on.
#[verifier::opaque]
pub open spec fn csr_config_option(p: Input, i: int) -> Out<TreeView>
{
    match one_keyword(p, i, seq![Keyword::AVRO]) { Failed(e, i) => Failed(e, i), Got(k, i) => {
    match one_keyword(p, i, seq![Keyword::KEY, Keyword::VALUE]) { Failed(e, i) => Failed(e, i), Got(which, i) => {
    match keyword(p, i, Keyword::FULLNAME) { Failed(e, i) => Failed(e, i), Got(_, i) => {
    match optional_option_value(p, i) { Failed(e, i) => Failed(e, i), Got(v, i) => {
    if which == Keyword::KEY {
        Got(TreeView::Node(Kind::CsrConfigOption, seq![TreeView::Node(Kind::AvroKeyFullname, Seq::<TreeView>::empty()), v]), i)
    } else {
        Got(TreeView::Node(Kind::CsrConfigOption, seq![TreeView::Node(Kind::AvroValueFullname, Seq::<TreeView>::empty()), v]), i)
    }
    }}
    }}
    }}
    }}
}

impl Parser {
    /// Parse an option of a schema registry reference.
    pub fn parse_csr_config_option(&mut self) -> (r: Result<Tree, Failure>)
        requires
            old(self).ready(),
        ensures
            final(self).follows(*old(self), csr_config_option(old(self).input(), old(self).index as int), r),
            r is Ok ==> final(self).index > old(self).index,
            r matches Err(e) ==> !(e@ is Unhandled),
    {
        broadcast use group_tree_views;

        proof {
            reveal(csr_config_option);
        }
        let choices: [Keyword; 1] = [Keyword::AVRO];
        assert(choices@ =~= seq![Keyword::AVRO]);
        let k = self.expect_one_of_keywords(&choices)?;
        let choices: [Keyword; 2] = [Keyword::KEY, Keyword::VALUE];
        assert(choices@ =~= seq![Keyword::KEY, Keyword::VALUE]);
        let which = self.expect_one_of_keywords(&choices)?;
        self.expect_keyword(Keyword::FULLNAME)?;
        let v = self.parse_optional_option_value()?;
        if which == Keyword::KEY {
            Ok(node(Kind::CsrConfigOption, trees2(node(Kind::AvroKeyFullname, trees0()), v)))
        } else {
            Ok(node(Kind::CsrConfigOption, trees2(node(Kind::AvroValueFullname, trees0()), v)))
        }
    }
}

/// What [`Parser::parse_csr_config_option_list`] yields from the token at `i` on.
#[verifier::opaque]
pub open spec fn csr_config_option_list(p: Input, i: int, items: Seq<TreeView>) -> Out<Seq<TreeView>>
    decreases p.toks.len() - i, 0int,
{
    match past(p, i, csr_config_option(p, i)) { Failed(e, i) => Failed(e, i), Got(item, i) => {
    if at_token(p, i, TokenView::Comma) {
        let i = i + 1;
        csr_config_option_list(p, i, items.push(item))
    } else {
        Got(items.push(item), i)
    }
    }}
}

impl Parser {
    /// Parses one or more `csr_config_option`, separated by commas, after those in `items`.
    pub fn parse_csr_config_option_list(&mut self, mut items: Trees) -> (r: Result<Trees, Failure>)
        requires
            old(self).ready(),
        ensures
            final(self).follows(*old(self), csr_config_option_list(old(self).input(), old(self).index as int, items@), r),
            r is Ok ==> final(self).index > old(self).index,
            r matches Ok(all) ==> all@.len() > items@.len(),
            r matches Err(e) ==> !(e@ is Unhandled),
        decreases old(self).tokens.len() - old(self).index, 0int,
    {
        broadcast use group_tree_views;

        proof {
            reveal(csr_config_option_list);
        }
        let ghost before = *self;
        let ghost given = items@.len();
        let ghost goal = csr_config_option_list(self.input(), self.index as int, items@);
        #[verifier::loop_isolation(false)]
        loop
            invariant
                self.ready(),
                self.input() == before.input(),
                self.tokens.len() == before.tokens.len(),
                before.index <= self.index,
                before == *old(self),
                given <= items@.len(),
                csr_config_option_list(self.input(), self.index as int, items@) == goal,
            decreases self.tokens.len() - self.index,
        {
            proof {
                reveal(csr_config_option_list);
            }
            let item = self.parse_csr_config_option()?;
            if self.consume_token(&Token::Comma) {
                items = items.with(item);
                continue;
            } else {
                return Ok(items.with(item));
            }
        }
    }
}

/// What [`Parser::parse_schema_strategy`] yields from the token at `i` on.
#[verifier::opaque]
pub open spec fn schema_strategy(p: Input, i: int) -> Out<TreeView>
{
    match one_keyword(p, i, seq![Keyword::ID, Keyword::LATEST, Keyword::INLINE]) { Failed(e, i) => Failed(e, i), Got(k, i) => {
    match k {
        Keyword::ID => {
            let at = position(p, i);
            match literal_int(p, i) { Failed(e, i) => Failed(e, i), Got(n, i) => {
            if fits_i32(n) {
                Got(TreeView::Node(Kind::StrategyById, seq![n]), i)
            } else {
                Failed(error_view(at as int, no_text() + "Expected a 32-bit integer"@), i)
            }
            }}
        },
        Keyword::LATEST => {
            Got(TreeView::Node(Kind::StrategyLatest, Seq::<TreeView>::empty()), i)
        },
        _ => {
            match literal_string(p, i) { Failed(e, i) => Failed(e, i), Got(s, i) => {
            Got(TreeView::Node(Kind::StrategyInline, seq![TreeView::Text(s)]), i)
            }}
        },
    }
    }}
}

impl Parser {
    /// Parse how a reader schema is chosen.
    pub fn parse_schema_strategy(&mut self) -> (r: Result<Tree, Failure>)
        requires
            old(self).ready(),
        ensures
            final(self).follows(*old(self), schema_strategy(old(self).input(), old(self).index as int), r),
            r is Ok ==> final(self).index > old(self).index,
            r matches Err(e) ==> !(e@ is Unhandled),
    {
        broadcast use group_tree_views;

        proof {
            reveal(schema_strategy);
        }
        let choices: [Keyword; 3] = [Keyword::ID, Keyword::LATEST, Keyword::INLINE];
        assert(choices@ =~= seq![Keyword::ID, Keyword::LATEST, Keyword::INLINE]);
        let k = self.expect_one_of_keywords(&choices)?;
        match k {
            Keyword::ID => {
                let at: usize = self.peek_pos();
                let n = self.parse_literal_int()?;
                if is_i32(&n) {
                    Ok(node(Kind::StrategyById, trees1(n)))
                } else {
                    let pos: usize = at;
                    Err(error(pos, String::new().concat("Expected a 32-bit integer")))
                }
            },
            Keyword::LATEST => {
                Ok(node(Kind::StrategyLatest, trees0()))
            },
            _ => {
                let s = self.parse_literal_string()?;
                Ok(node(Kind::StrategyInline, trees1(Tree::Text(s))))
            },
        }
    }
}

/// What [`Parser::parse_csr_connection_avro`] yields from the token at `i` on.
#[verifier::opaque]
pub open spec fn csr_connection_avro(p: Input, i: int) -> Out<TreeView>
{
    match csr_connection_reference(p, i) { Failed(e, i) => Failed(e, i), Got(connection, i) => {
    match {
        if at_keyword(p, i, Keyword::SEED) {
            let i = i + 1;
            match {
                if at_keyword(p, i, Keyword::KEY) {
                    let i = i + 1;
                    match keyword(p, i, Keyword::SCHEMA) { Failed(e, i) => Failed(e, i), Got(_, i) => {
                    match literal_string(p, i) { Failed(e, i) => Failed(e, i), Got(s, i) => {
                    Got(TreeView::Text(s), i)
                    }}
                    }}
                } else {
                    Got(TreeView::Absent, i)
                }
            } { Failed(e, i) => Failed(e, i), Got(key_schema, i) => {
            match keyword(p, i, Keyword::VALUE) { Failed(e, i) => Failed(e, i), Got(_, i) => {
            match keyword(p, i, Keyword::SCHEMA) { Failed(e, i) => Failed(e, i), Got(_, i) => {
            match literal_string(p, i) { Failed(e, i) => Failed(e, i), Got(value_schema, i) => {
            Got(TreeView::Node(Kind::CsrSeedAvro, seq![key_schema, TreeView::Text(value_schema)]), i)
            }}
            }}}}
            }}
        } else {
            Got(TreeView::Absent, i)
        }
    } { Failed(e, i) => Failed(e, i), Got(seed, i) => {
    match {
        if at_keywords2(p, i, Keyword::KEY, Keyword::STRATEGY) {
            let i = i + 2;
            schema_strategy(p, i)
        } else {
            Got(TreeView::Absent, i)
        }
    } { Failed(e, i) => Failed(e, i), Got(key_strategy, i) => {
    match {
        if at_keywords2(p, i, Keyword::VALUE, Keyword::STRATEGY) {
            let i = i + 2;
            schema_strategy(p, i)
        } else {
            Got(TreeView::Absent, i)
        }
    } { Failed(e, i) => Failed(e, i), Got(value_strategy, i) => {
    Got(TreeView::Node(Kind::CsrConnectionAvro, seq![connection, seed, key_strategy, value_strategy]), i)
    }}
    }}
    }}
    }}
}

impl Parser {
    /// Parse a schema registry connection for Avro.
    #[verifier::rlimit(30)]
    pub fn parse_csr_connection_avro(&mut self) -> (r: Result<Tree, Failure>)
        requires
            old(self).ready(),
        ensures
            final(self).follows(*old(self), csr_connection_avro(old(self).input(), old(self).index as int), r),
            r is Ok ==> final(self).index > old(self).index,
            r matches Err(e) ==> !(e@ is Unhandled),
    {
        broadcast use group_tree_views;

        proof {
            reveal(csr_connection_avro);
        }
        let connection = self.parse_csr_connection_reference()?;
        let seed = if self.parse_keyword(Keyword::SEED) {
            let key_schema = if self.parse_keyword(Keyword::KEY) {
                self.expect_keyword(Keyword::SCHEMA)?;
                let s = self.parse_literal_string()?;
                Tree::Text(s)
            } else {
                Tree::Absent
            };
            self.expect_keyword(Keyword::VALUE)?;
            self.expect_keyword(Keyword::SCHEMA)?;
            let value_schema = self.parse_literal_string()?;
            node(Kind::CsrSeedAvro, trees2(key_schema, Tree::Text(value_schema)))
        } else {
            Tree::Absent
        };
        let key_strategy = if self.parse_keywords2(Keyword::KEY, Keyword::STRATEGY) {
            self.parse_schema_strategy()?
        } else {
            Tree::Absent
        };
        let value_strategy = if self.parse_keywords2(Keyword::VALUE, Keyword::STRATEGY) {
            self.parse_schema_strategy()?
        } else {
            Tree::Absent
        };
        Ok(node(Kind::CsrConnectionAvro, trees4(connection, seed, key_strategy, value_strategy)))
    }
}

/// What [`Parser::parse_csr_connection_proto`] yields from the token at `i` on.
#[verifier::opaque]
pub open spec fn csr_connection_proto(p: Input, i: int) -> Out<TreeView>
{
    match csr_connection_reference(p, i) { Failed(e, i) => Failed(e, i), Got(connection, i) => {
    match {
        if at_keyword(p, i, Keyword::SEED) {
            let i = i + 1;
            match {
                if at_keyword(p, i, Keyword::KEY) {
                    let i = i + 1;
                    match keyword(p, i, Keyword::SCHEMA) { Failed(e, i) => Failed(e, i), Got(_, i) => {
                    match literal_string(p, i) { Failed(e, i) => Failed(e, i), Got(schema, i) => {
                    match keyword(p, i, Keyword::MESSAGE) { Failed(e, i) => Failed(e, i), Got(_, i) => {
                    match literal_string(p, i) { Failed(e, i) => Failed(e, i), Got(message_name, i) => {
                    Got(TreeView::Node(Kind::CsrSeedProtobufSchema, seq![TreeView::Text(schema), TreeView::Text(message_name)]), i)
                    }}
                    }}
                    }}
                    }}
                } else {
                    Got(TreeView::Absent, i)
                }
            } { Failed(e, i) => Failed(e, i), Got(key, i) => {
            match keyword(p, i, Keyword::VALUE) { Failed(e, i) => Failed(e, i), Got(_, i) => {
            match keyword(p, i, Keyword::SCHEMA) { Failed(e, i) => Failed(e, i), Got(_, i) => {
            match literal_string(p, i) { Failed(e, i) => Failed(e, i), Got(value_schema, i) => {
            match keyword(p, i, Keyword::MESSAGE) { Failed(e, i) => Failed(e, i), Got(_, i) => {
            match literal_string(p, i) { Failed(e, i) => Failed(e, i), Got(value_message_name, i) => {
            Got(TreeView::Node(Kind::CsrSeedProtobuf, seq![TreeView::Node(Kind::CsrSeedProtobufSchema, seq![TreeView::Text(value_schema), TreeView::Text(value_message_name)]), key]), i)
            }}
            }}
            }}
            }}}}
            }}
        } else {
            Got(TreeView::Absent, i)
        }
    } { Failed(e, i) => Failed(e, i), Got(seed, i) => {
    Got(TreeView::Node(Kind::CsrConnectionProtobuf, seq![connection, seed]), i)
    }}
    }}
}

impl Parser {
    /// Parse a schema registry connection for Protobuf.
    pub fn parse_csr_connection_proto(&mut self) -> (r: Result<Tree, Failure>)
        requires
            old(self).ready(),
        ensures
            final(self).follows(*old(self), csr_connection_proto(old(self).input(), old(self).index as int), r),
            r is Ok ==> final(self).index > old(self).index,
            r matches Err(e) ==> !(e@ is Unhandled),
    {
        broadcast use group_tree_views;

        proof {
            reveal(csr_connection_proto);
        }
        let connection = self.parse_csr_connection_reference()?;
        let seed = if self.parse_keyword(Keyword::SEED) {
            let key = if self.parse_keyword(Keyword::KEY) {
                self.expect_keyword(Keyword::SCHEMA)?;
                let schema = self.parse_literal_string()?;
                self.expect_keyword(Keyword::MESSAGE)?;
                let message_name = self.parse_literal_string()?;
                node(Kind::CsrSeedProtobufSchema, trees2(Tree::Text(schema), Tree::Text(message_name)))
            } else {
                Tree::Absent
            };
            self.expect_keyword(Keyword::VALUE)?;
            self.expect_keyword(Keyword::SCHEMA)?;
            let value_schema = self.parse_literal_string()?;
            self.expect_keyword(Keyword::MESSAGE)?;
            let value_message_name = self.parse_literal_string()?;
            node(Kind::CsrSeedProtobuf, trees2(node(Kind::CsrSeedProtobufSchema, trees2(Tree::Text(value_schema), Tree::Text(value_message_name))), key))
        } else {
            Tree::Absent
        };
        Ok(node(Kind::CsrConnectionProtobuf, trees2(connection, seed)))
    }
}

/// What [`Parser::parse_envelope`] yields from the token at `i` on.
#[verifier::opaque]
pub open spec fn envelope(p: Input, i: int) -> Out<TreeView>
{
    if at_keyword(p, i, Keyword::NONE) {
        let i = i + 1;
        Got(TreeView::Node(Kind::NoneEnvelope, Seq::<TreeView>::empty()), i)
    } else {
        if at_keyword(p, i, Keyword::DEBEZIUM) {
            let i = i + 1;
            Got(TreeView::Node(Kind::DebeziumEnvelope, Seq::<TreeView>::empty()), i)
        } else {
            if at_keyword(p, i, Keyword::UPSERT) {
                let i = i + 1;
                Got(TreeView::Node(Kind::UpsertEnvelope, Seq::<TreeView>::empty()), i)
            } else {
                if at_keyword(p, i, Keyword::MATERIALIZE) {
                    let i = i + 1;
                    Got(TreeView::Node(Kind::CdcV2Envelope, Seq::<TreeView>::empty()), i)
                } else {
                    Failed(expected_at(p, i, "NONE, DEBEZIUM, UPSERT, or MATERIALIZE"@), i)
                }
            }
        }
    }
}

impl Parser {
    /// Parse an envelope.
    pub fn parse_envelope(&mut self) -> (r: Result<Tree, Failure>)
        requires
            old(self).ready(),
        ensures
            final(self).follows(*old(self), envelope(old(self).input(), old(self).index as int), r),
            r is Ok ==> final(self).index > old(self).index,
            r matches Err(e) ==> !(e@ is Unhandled),
    {
        broadcast use group_tree_views;

        proof {
            reveal(envelope);
        }
        if self.parse_keyword(Keyword::NONE) {
            Ok(node(Kind::NoneEnvelope, trees0()))
        } else if self.parse_keyword(Keyword::DEBEZIUM) {
            Ok(node(Kind::DebeziumEnvelope, trees0()))
        } else if self.parse_keyword(Keyword::UPSERT) {
            Ok(node(Kind::UpsertEnvelope, trees0()))
        } else if self.parse_keyword(Keyword::MATERIALIZE) {
            Ok(node(Kind::CdcV2Envelope, trees0()))
        } else {
            Err(self.expected_here("NONE, DEBEZIUM, UPSERT, or MATERIALIZE"))
        }
    }
}

/// What [`Parser::parse_open_paren`] yields from the token at `i` on.
#[verifier::opaque]
pub open spec fn open_paren(p: Input, i: int, due: bool) -> Out<()>
{
    if due {
        match token(p, i, TokenView::LParen) { Failed(e, i) => Failed(e, i), Got(_, i) => {
        Got((), i)
        }}
    } else {
        Got((), i)
    }
}

impl Parser {
    /// Parse an opening parenthesis, where one is due.
    pub fn parse_open_paren(&mut self, due: bool) -> (r: Result<(), Failure>)
        requires
            old(self).ready(),
        ensures
            final(self).follows(*old(self), open_paren(old(self).input(), old(self).index as int, due), r),
            r matches Err(e) ==> !(e@ is Unhandled),
    {
        broadcast use group_tree_views;

        proof {
            reveal(open_paren);
        }
        if due {
            self.expect_token(&Token::LParen)?;
            Ok(())
        } else {
            Ok(())
        }
    }
}

/// What [`Parser::parse_create_connection`] yields from the token at `i` on.
#[verifier::opaque]
pub open spec fn create_connection(p: Input, i: int) -> Out<TreeView>
{
    match keyword(p, i, Keyword::CONNECTION) { Failed(e, i) => Failed(e, i), Got(_, i) => {
    match if_not_exists(p, i) { Failed(e, i) => Failed(e, i), Got(if_not_exists, i) => {
    match item_name(p, i) { Failed(e, i) => Failed(e, i), Got(name, i) => {
    match one_keyword(p, i, seq![Keyword::FOR, Keyword::TO]) { Failed(e, i) => Failed(e, i), Got(k, i) => {
    let paren = k == Keyword::TO;
    match one_keyword(p, i, seq![Keyword::AWS, Keyword::KAFKA, Keyword::CONFLUENT, Keyword::POSTGRES, Keyword::SSH]) { Failed(e, i) => Failed(e, i), Got(what, i) => {
    match {
        match what {
            Keyword::AWS => {
                if at_keyword(p, i, Keyword::PRIVATELINK) {
                    let i = i + 1;
                    match open_paren(p, i, paren) { Failed(e, i) => Failed(e, i), Got(_, i) => {
                    match aws_privatelink_connection_option_list(p, i, Seq::<TreeView>::empty()) { Failed(e, i) => Failed(e, i), Got(os, i) => {
                    Got(TreeView::Node(Kind::AwsPrivatelinkConnection, seq![TreeView::List(os)]), i)
                    }}
                    }}
                } else {
                    match open_paren(p, i, paren) { Failed(e, i) => Failed(e, i), Got(_, i) => {
                    match aws_connection_option_list(p, i, Seq::<TreeView>::empty()) { Failed(e, i) => Failed(e, i), Got(os, i) => {
                    Got(TreeView::Node(Kind::AwsConnection, seq![TreeView::List(os)]), i)
                    }}
                    }}
                }
            },
            Keyword::KAFKA => {
                match open_paren(p, i, paren) { Failed(e, i) => Failed(e, i), Got(_, i) => {
                match kafka_connection_option_list(p, i, Seq::<TreeView>::empty()) { Failed(e, i) => Failed(e, i), Got(os, i) => {
                Got(TreeView::Node(Kind::KafkaConnection, seq![TreeView::List(os)]), i)
                }}
                }}
            },
            Keyword::CONFLUENT => {
                match keyword(p, i, Keyword::SCHEMA) { Failed(e, i) => Failed(e, i), Got(_, i) => {
                match keyword(p, i, Keyword::REGISTRY) { Failed(e, i) => Failed(e, i), Got(_, i) => {
                match open_paren(p, i, paren) { Failed(e, i) => Failed(e, i), Got(_, i) => {
                match csr_connection_option_list(p, i, Seq::<TreeView>::empty()) { Failed(e, i) => Failed(e, i), Got(os, i) => {
                Got(TreeView::Node(Kind::CsrConnectionDefinition, seq![TreeView::List(os)]), i)
                }}
                }}
                }}}}
            },
            Keyword::POSTGRES => {
                match open_paren(p, i, paren) { Failed(e, i) => Failed(e, i), Got(_, i) => {
                match postgres_connection_option_list(p, i, Seq::<TreeView>::empty()) { Failed(e, i) => Failed(e, i), Got(os, i) => {
                Got(TreeView::Node(Kind::PostgresConnection, seq![TreeView::List(os)]), i)
                }}
                }}
            },
            _ => {
                match keyword(p, i, Keyword::TUNNEL) { Failed(e, i) => Failed(e, i), Got(_, i) => {
                match open_paren(p, i, paren) { Failed(e, i) => Failed(e, i), Got(_, i) => {
                match ssh_connection_option_list(p, i, Seq::<TreeView>::empty()) { Failed(e, i) => Failed(e, i), Got(os, i) => {
                Got(TreeView::Node(Kind::SshConnection, seq![TreeView::List(os)]), i)
                }}
                }}
                }}
            },
        }
    } { Failed(e, i) => Failed(e, i), Got(connection, i) => {
    if paren {
        match token(p, i, TokenView::RParen) { Failed(e, i) => Failed(e, i), Got(_, i) => {
        Got(TreeView::Node(Kind::CreateConnection, seq![name, connection, TreeView::Flag(if_not_exists)]), i)
        }}
    } else {
        Got(TreeView::Node(Kind::CreateConnection, seq![name, connection, TreeView::Flag(if_not_exists)]), i)
    }
    }}
    }}
    }}
    }}
    }}
    }}
}

impl Parser {
    /// Parse a `CREATE CONNECTION` statement.
    #[verifier::rlimit(60)]
    pub fn parse_create_connection(&mut self) -> (r: Result<Tree, Failure>)
        requires
            old(self).ready(),
        ensures
            final(self).follows(*old(self), create_connection(old(self).input(), old(self).index as int), r),
            r is Ok ==> final(self).index > old(self).index,
            r matches Err(e) ==> !(e@ is Unhandled),
    {
        broadcast use group_tree_views;

        proof {
            reveal(create_connection);
        }
        self.expect_keyword(Keyword::CONNECTION)?;
        let if_not_exists = self.parse_if_not_exists()?;
        let name = self.parse_item_name()?;
        let choices: [Keyword; 2] = [Keyword::FOR, Keyword::TO];
        assert(choices@ =~= seq![Keyword::FOR, Keyword::TO]);
        let k = self.expect_one_of_keywords(&choices)?;
        let paren = k == Keyword::TO;
        let choices: [Keyword; 5] = [Keyword::AWS, Keyword::KAFKA, Keyword::CONFLUENT, Keyword::POSTGRES, Keyword::SSH];
        assert(choices@ =~= seq![Keyword::AWS, Keyword::KAFKA, Keyword::CONFLUENT, Keyword::POSTGRES, Keyword::SSH]);
        let what = self.expect_one_of_keywords(&choices)?;
        let connection = match what {
            Keyword::AWS => {
                if self.parse_keyword(Keyword::PRIVATELINK) {
                    self.parse_open_paren(paren)?;
                    let os = self.parse_aws_privatelink_connection_option_list(trees0())?;
                    node(Kind::AwsPrivatelinkConnection, trees1(list(os)))
                } else {
                    self.parse_open_paren(paren)?;
                    let os = self.parse_aws_connection_option_list(trees0())?;
                    node(Kind::AwsConnection, trees1(list(os)))
                }
            },
            Keyword::KAFKA => {
                self.parse_open_paren(paren)?;
                let os = self.parse_kafka_connection_option_list(trees0())?;
                node(Kind::KafkaConnection, trees1(list(os)))
            },
            Keyword::CONFLUENT => {
                self.expect_keyword(Keyword::SCHEMA)?;
                self.expect_keyword(Keyword::REGISTRY)?;
                self.parse_open_paren(paren)?;
                let os = self.parse_csr_connection_option_list(trees0())?;
                node(Kind::CsrConnectionDefinition, trees1(list(os)))
            },
            Keyword::POSTGRES => {
                self.parse_open_paren(paren)?;
                let os = self.parse_postgres_connection_option_list(trees0())?;
                node(Kind::PostgresConnection, trees1(list(os)))
            },
            _ => {
                self.expect_keyword(Keyword::TUNNEL)?;
                self.parse_open_paren(paren)?;
                let os = self.parse_ssh_connection_option_list(trees0())?;
                node(Kind::SshConnection, trees1(list(os)))
            },
        };
        if paren {
            self.expect_token(&Token::RParen)?;
            Ok(node(Kind::CreateConnection, trees3(name, connection, Tree::Flag(if_not_exists))))
        } else {
            Ok(node(Kind::CreateConnection, trees3(name, connection, Tree::Flag(if_not_exists))))
        }
    }
}

/// What [`Parser::parse_kafka_connection_option`] yields from the token at `i` on.
#[verifier::opaque]
pub open spec fn kafka_connection_option(p: Input, i: int) -> Out<TreeView>
{
    match one_keyword(p, i, seq![Keyword::BROKER, Keyword::BROKERS, Keyword::PROGRESS, Keyword::SASL, Keyword::SSL]) { Failed(e, i) => Failed(e, i), Got(k, i) => {
    match k {
        Keyword::BROKER => {
            match kafka_broker(p, i) { Failed(e, i) => Failed(e, i), Got(broker, i) => {
            Got(TreeView::Node(Kind::KafkaConnectionOption, seq![TreeView::Node(Kind::Broker, Seq::<TreeView>::empty()), broker]), i)
            }}
        },
        Keyword::BROKERS => {
            let i = if at_token(p, i, TokenView::Eq) { i + 1 } else { i };
            if at_token(p, i, TokenView::LParen) {
                let i = i + 1;
                match kafka_broker_list(p, i, Seq::<TreeView>::empty()) { Failed(e, i) => Failed(e, i), Got(brokers, i) => {
                match token(p, i, TokenView::RParen) { Failed(e, i) => Failed(e, i), Got(_, i) => {
                Got(TreeView::Node(Kind::KafkaConnectionOption, seq![TreeView::Node(Kind::Brokers, Seq::<TreeView>::empty()), TreeView::Node(Kind::SequenceValue, seq![TreeView::List(brokers)])]), i)
                }}
                }}
            } else {
                if at_token(p, i, TokenView::LBracket) {
                    let i = i + 1;
                    match kafka_broker_list(p, i, Seq::<TreeView>::empty()) { Failed(e, i) => Failed(e, i), Got(brokers, i) => {
                    match token(p, i, TokenView::RBracket) { Failed(e, i) => Failed(e, i), Got(_, i) => {
                    Got(TreeView::Node(Kind::KafkaConnectionOption, seq![TreeView::Node(Kind::Brokers, Seq::<TreeView>::empty()), TreeView::Node(Kind::SequenceValue, seq![TreeView::List(brokers)])]), i)
                    }}
                    }}
                } else {
                    Failed(expected_at(p, i, "one of left parenthesis or left square bracket"@), i)
                }
            }
        },
        Keyword::PROGRESS => {
            match keyword(p, i, Keyword::TOPIC) { Failed(e, i) => Failed(e, i), Got(_, i) => {
            match optional_option_value(p, i) { Failed(e, i) => Failed(e, i), Got(v, i) => {
            Got(TreeView::Node(Kind::KafkaConnectionOption, seq![TreeView::Node(Kind::ProgressTopic, Seq::<TreeView>::empty()), v]), i)
            }}
            }}
        },
        Keyword::SASL => {
            match one_keyword(p, i, seq![Keyword::MECHANISMS, Keyword::PASSWORD, Keyword::USERNAME]) { Failed(e, i) => Failed(e, i), Got(which, i) => {
            match optional_option_value(p, i) { Failed(e, i) => Failed(e, i), Got(v, i) => {
            match which {
                Keyword::MECHANISMS => {
                    Got(TreeView::Node(Kind::KafkaConnectionOption, seq![TreeView::Node(Kind::SaslMechanisms, Seq::<TreeView>::empty()), v]), i)
                },
                Keyword::PASSWORD => {
                    Got(TreeView::Node(Kind::KafkaConnectionOption, seq![TreeView::Node(Kind::SaslPassword, Seq::<TreeView>::empty()), v]), i)
                },
                _ => {
                    Got(TreeView::Node(Kind::KafkaConnectionOption, seq![TreeView::Node(Kind::SaslUsername, Seq::<TreeView>::empty()), v]), i)
                },
            }
            }}
            }}
        },
        _ => {
            match one_keyword(p, i, seq![Keyword::KEY, Keyword::CERTIFICATE]) { Failed(e, i) => Failed(e, i), Got(which, i) => {
            match {
                match which {
                    Keyword::KEY => {
                        Got(TreeView::Node(Kind::SslKey, Seq::<TreeView>::empty()), i)
                    },
                    _ => {
                        if at_keyword(p, i, Keyword::AUTHORITY) {
                            let i = i + 1;
                            Got(TreeView::Node(Kind::SslCertificateAuthority, Seq::<TreeView>::empty()), i)
                        } else {
                            Got(TreeView::Node(Kind::SslCertificate, Seq::<TreeView>::empty()), i)
                        }
                    },
                }
            } { Failed(e, i) => Failed(e, i), Got(name, i) => {
            match optional_option_value(p, i) { Failed(e, i) => Failed(e, i), Got(v, i) => {
            Got(TreeView::Node(Kind::KafkaConnectionOption, seq![name, v]), i)
            }}
            }}
            }}
        },
    }
    }}
}

impl Parser {
    /// Parse an option of a Kafka connection.
    #[verifier::rlimit(60)]
    pub fn parse_kafka_connection_option(&mut self) -> (r: Result<Tree, Failure>)
        requires
            old(self).ready(),
        ensures
            final(self).follows(*old(self), kafka_connection_option(old(self).input(), old(self).index as int), r),
            r is Ok ==> final(self).index > old(self).index,
            r matches Err(e) ==> !(e@ is Unhandled),
    {
        broadcast use group_tree_views;

        proof {
            reveal(kafka_connection_option);
        }
        let choices: [Keyword; 5] = [Keyword::BROKER, Keyword::BROKERS, Keyword::PROGRESS, Keyword::SASL, Keyword::SSL];
        assert(choices@ =~= seq![Keyword::BROKER, Keyword::BROKERS, Keyword::PROGRESS, Keyword::SASL, Keyword::SSL]);
        let k = self.expect_one_of_keywords(&choices)?;
        match k {
            Keyword::BROKER => {
                let broker = self.parse_kafka_broker()?;
                Ok(node(Kind::KafkaConnectionOption, trees2(node(Kind::Broker, trees0()), broker)))
            },
            Keyword::BROKERS => {
                let _ = self.consume_token(&Token::Eq);
                if self.consume_token(&Token::LParen) {
                    let brokers = self.parse_kafka_broker_list(trees0())?;
                    self.expect_token(&Token::RParen)?;
                    Ok(node(Kind::KafkaConnectionOption, trees2(node(Kind::Brokers, trees0()), node(Kind::SequenceValue, trees1(list(brokers))))))
                } else if self.consume_token(&Token::LBracket) {
                    let brokers = self.parse_kafka_broker_list(trees0())?;
                    self.expect_token(&Token::RBracket)?;
                    Ok(node(Kind::KafkaConnectionOption, trees2(node(Kind::Brokers, trees0()), node(Kind::SequenceValue, trees1(list(brokers))))))
                } else {
                    Err(self.expected_here("one of left parenthesis or left square bracket"))
                }
            },
            Keyword::PROGRESS => {
                self.expect_keyword(Keyword::TOPIC)?;
                let v = self.parse_optional_option_value()?;
                Ok(node(Kind::KafkaConnectionOption, trees2(node(Kind::ProgressTopic, trees0()), v)))
            },
            Keyword::SASL => {
                let choices: [Keyword; 3] = [Keyword::MECHANISMS, Keyword::PASSWORD, Keyword::USERNAME];
                assert(choices@ =~= seq![Keyword::MECHANISMS, Keyword::PASSWORD, Keyword::USERNAME]);
                let which = self.expect_one_of_keywords(&choices)?;
                let v = self.parse_optional_option_value()?;
                match which {
                    Keyword::MECHANISMS => {
                        Ok(node(Kind::KafkaConnectionOption, trees2(node(Kind::SaslMechanisms, trees0()), v)))
                    },
                    Keyword::PASSWORD => {
                        Ok(node(Kind::KafkaConnectionOption, trees2(node(Kind::SaslPassword, trees0()), v)))
                    },
                    _ => {
                        Ok(node(Kind::KafkaConnectionOption, trees2(node(Kind::SaslUsername, trees0()), v)))
                    },
                }
            },
            _ => {
                let choices: [Keyword; 2] = [Keyword::KEY, Keyword::CERTIFICATE];
                assert(choices@ =~= seq![Keyword::KEY, Keyword::CERTIFICATE]);
                let which = self.expect_one_of_keywords(&choices)?;
                let name = match which {
                    Keyword::KEY => {
                        node(Kind::SslKey, trees0())
                    },
                    _ => {
                        if self.parse_keyword(Keyword::AUTHORITY) {
                            node(Kind::SslCertificateAuthority, trees0())
                        } else {
                            node(Kind::SslCertificate, trees0())
                        }
                    },
                };
                let v = self.parse_optional_option_value()?;
                Ok(node(Kind::KafkaConnectionOption, trees2(name, v)))
            },
        }
    }
}

/// What [`Parser::parse_kafka_connection_option_list`] yields from the token at `i` on.
#[verifier::opaque]
pub open spec fn kafka_connection_option_list(p: Input, i: int, items: Seq<TreeView>) -> Out<Seq<TreeView>>
    decreases p.toks.len() - i, 0int,
{
    match past(p, i, kafka_connection_option(p, i)) { Failed(e, i) => Failed(e, i), Got(item, i) => {
    if at_token(p, i, TokenView::Comma) {
        let i = i + 1;
        kafka_connection_option_list(p, i, items.push(item))
    } else {
        Got(items.push(item), i)
    }
    }}
}

impl Parser {
    /// Parses one or more `kafka_connection_option`, separated by commas, after those in `items`.
    pub fn parse_kafka_connection_option_list(&mut self, mut items: Trees) -> (r: Result<Trees, Failure>)
        requires
            old(self).ready(),
        ensures
            final(self).follows(*old(self), kafka_connection_option_list(old(self).input(), old(self).index as int, items@), r),
            r is Ok ==> final(self).index > old(self).index,
            r matches Ok(all) ==> all@.len() > items@.len(),
            r matches Err(e) ==> !(e@ is Unhandled),
        decreases old(self).tokens.len() - old(self).index, 0int,
    {
        broadcast use group_tree_views;

        proof {
            reveal(kafka_connection_option_list);
        }
        let ghost before = *self;
        let ghost given = items@.len();
        let ghost goal = kafka_connection_option_list(self.input(), self.index as int, items@);
        #[verifier::loop_isolation(false)]
        loop
            invariant
                self.ready(),
                self.input() == before.input(),
                self.tokens.len() == before.tokens.len(),
                before.index <= self.index,
                before == *old(self),
                given <= items@.len(),
                kafka_connection_option_list(self.input(), self.index as int, items@) == goal,
            decreases self.tokens.len() - self.index,
        {
            proof {
                reveal(kafka_connection_option_list);
            }
            let item = self.parse_kafka_connection_option()?;
            if self.consume_token(&Token::Comma) {
                items = items.with(item);
                continue;
            } else {
                return Ok(items.with(item));
            }
        }
    }
}

/// What [`Parser::parse_kafka_broker`] yields from the token at `i` on.
#[verifier::opaque]
pub open spec fn kafka_broker(p: Input, i: int) -> Out<TreeView>
{
    let i = if at_token(p, i, TokenView::Eq) { i + 1 } else { i };
    match literal_string(p, i) { Failed(e, i) => Failed(e, i), Got(address, i) => {
    match {
        if at_keyword(p, i, Keyword::USING) {
            let i = i + 1;
            match one_keyword(p, i, seq![Keyword::AWS, Keyword::SSH]) { Failed(e, i) => Failed(e, i), Got(k, i) => {
            match k {
                Keyword::AWS => {
                    match keyword(p, i, Keyword::PRIVATELINK) { Failed(e, i) => Failed(e, i), Got(_, i) => {
                    match raw_name(p, i) { Failed(e, i) => Failed(e, i), Got(connection, i) => {
                    match {
                        if at_token(p, i, TokenView::LParen) {
                            let i = i + 1;
                            match kafka_broker_aws_private_link_option_list(p, i, Seq::<TreeView>::empty()) { Failed(e, i) => Failed(e, i), Got(os, i) => {
                            match token(p, i, TokenView::RParen) { Failed(e, i) => Failed(e, i), Got(_, i) => {
                            Got(TreeView::List(os), i)
                            }}
                            }}
                        } else {
                            Got(TreeView::List(Seq::<TreeView>::empty()), i)
                        }
                    } { Failed(e, i) => Failed(e, i), Got(options, i) => {
                    Got(TreeView::Node(Kind::AwsPrivatelinkTunnel, seq![connection, options]), i)
                    }}
                    }}
                    }}
                },
                _ => {
                    match keyword(p, i, Keyword::TUNNEL) { Failed(e, i) => Failed(e, i), Got(_, i) => {
                    match raw_name(p, i) { Failed(e, i) => Failed(e, i), Got(connection, i) => {
                    Got(TreeView::Node(Kind::SshTunnelTunnel, seq![connection]), i)
                    }}
                    }}
                },
            }
            }}
        } else {
            Got(TreeView::Node(Kind::DirectTunnel, Seq::<TreeView>::empty()), i)
        }
    } { Failed(e, i) => Failed(e, i), Got(tunnel, i) => {
    Got(TreeView::Node(Kind::KafkaBroker, seq![TreeView::Text(address), tunnel]), i)
    }}
    }}
}

impl Parser {
    /// Parse a Kafka broker.
    #[verifier::rlimit(30)]
    pub fn parse_kafka_broker(&mut self) -> (r: Result<Tree, Failure>)
        requires
            old(self).ready(),
        ensures
            final(self).follows(*old(self), kafka_broker(old(self).input(), old(self).index as int), r),
            r is Ok ==> final(self).index > old(self).index,
            r matches Err(e) ==> !(e@ is Unhandled),
    {
        broadcast use group_tree_views;

        proof {
            reveal(kafka_broker);
        }
        let _ = self.consume_token(&Token::Eq);
        let address = self.parse_literal_string()?;
        let tunnel = if self.parse_keyword(Keyword::USING) {
            let choices: [Keyword; 2] = [Keyword::AWS, Keyword::SSH];
            assert(choices@ =~= seq![Keyword::AWS, Keyword::SSH]);
            let k = self.expect_one_of_keywords(&choices)?;
            match k {
                Keyword::AWS => {
                    self.expect_keyword(Keyword::PRIVATELINK)?;
                    let connection = self.parse_raw_name()?;
                    let options = if self.consume_token(&Token::LParen) {
                        let os = self.parse_kafka_broker_aws_private_link_option_list(trees0())?;
                        self.expect_token(&Token::RParen)?;
                        list(os)
                    } else {
                        list(trees0())
                    };
                    node(Kind::AwsPrivatelinkTunnel, trees2(connection, options))
                },
                _ => {
                    self.expect_keyword(Keyword::TUNNEL)?;
                    let connection = self.parse_raw_name()?;
                    node(Kind::SshTunnelTunnel, trees1(connection))
                },
            }
        } else {
            node(Kind::DirectTunnel, trees0())
        };
        Ok(node(Kind::KafkaBroker, trees2(Tree::Text(address), tunnel)))
    }
}

/// What [`Parser::parse_kafka_broker_list`] yields from the token at `i` on.
#[verifier::opaque]
pub open spec fn kafka_broker_list(p: Input, i: int, items: Seq<TreeView>) -> Out<Seq<TreeView>>
    decreases p.toks.len() - i, 0int,
{
    match past(p, i, kafka_broker(p, i)) { Failed(e, i) => Failed(e, i), Got(item, i) => {
    if at_token(p, i, TokenView::Comma) {
        let i = i + 1;
        kafka_broker_list(p, i, items.push(item))
    } else {
        Got(items.push(item), i)
    }
    }}
}

impl Parser {
    /// Parses one or more `kafka_broker`, separated by commas, after those in `items`.
    pub fn parse_kafka_broker_list(&mut self, mut items: Trees) -> (r: Result<Trees, Failure>)
        requires
            old(self).ready(),
        ensures
            final(self).follows(*old(self), kafka_broker_list(old(self).input(), old(self).index as int, items@), r),
            r is Ok ==> final(self).index > old(self).index,
            r matches Ok(all) ==> all@.len() > items@.len(),
            r matches Err(e) ==> !(e@ is Unhandled),
        decreases old(self).tokens.len() - old(self).index, 0int,
    {
        broadcast use group_tree_views;

        proof {
            reveal(kafka_broker_list);
        }
        let ghost before = *self;
        let ghost given = items@.len();
        let ghost goal = kafka_broker_list(self.input(), self.index as int, items@);
        #[verifier::loop_isolation(false)]
        loop
            invariant
                self.ready(),
                self.input() == before.input(),
                self.tokens.len() == before.tokens.len(),
                before.index <= self.index,
                before == *old(self),
                given <= items@.len(),
                kafka_broker_list(self.input(), self.index as int, items@) == goal,
            decreases self.tokens.len() - self.index,
        {
            proof {
                reveal(kafka_broker_list);
            }
            let item = self.parse_kafka_broker()?;
            if self.consume_token(&Token::Comma) {
                items = items.with(item);
                continue;
            } else {
                return Ok(items.with(item));
            }
        }
    }
}

/// What [`Parser::parse_kafka_broker_aws_private_link_option`] yields from the token at `i` on.
#[verifier::opaque]
pub open spec fn kafka_broker_aws_private_link_option(p: Input, i: int) -> Out<TreeView>
{
    match one_keyword(p, i, seq![Keyword::AVAILABILITY, Keyword::PORT]) { Failed(e, i) => Failed(e, i), Got(k, i) => {
    match k {
        Keyword::AVAILABILITY => {
            match keyword(p, i, Keyword::ZONE) { Failed(e, i) => Failed(e, i), Got(_, i) => {
            match optional_option_value(p, i) { Failed(e, i) => Failed(e, i), Got(v, i) => {
            Got(TreeView::Node(Kind::KafkaBrokerAwsPrivatelinkOption, seq![TreeView::Node(Kind::AvailabilityZone, Seq::<TreeView>::empty()), v]), i)
            }}
            }}
        },
        _ => {
            match optional_option_value(p, i) { Failed(e, i) => Failed(e, i), Got(v, i) => {
            Got(TreeView::Node(Kind::KafkaBrokerAwsPrivatelinkOption, seq![TreeView::Node(Kind::Port, Seq::<TreeView>::empty()), v]), i)
            }}
        },
    }
    }}
}

impl Parser {
    /// Parse an option of a broker that is reached through AWS PrivateLink.
    pub fn parse_kafka_broker_aws_private_link_option(&mut self) -> (r: Result<Tree, Failure>)
        requires
            old(self).ready(),
        ensures
            final(self).follows(*old(self), kafka_broker_aws_private_link_option(old(self).input(), old(self).index as int), r),
            r is Ok ==> final(self).index > old(self).index,
            r matches Err(e) ==> !(e@ is Unhandled),
    {
        broadcast use group_tree_views;

        proof {
            reveal(kafka_broker_aws_private_link_option);
        }
        let choices: [Keyword; 2] = [Keyword::AVAILABILITY, Keyword::PORT];
        assert(choices@ =~= seq![Keyword::AVAILABILITY, Keyword::PORT]);
        let k = self.expect_one_of_keywords(&choices)?;
        match k {
            Keyword::AVAILABILITY => {
                self.expect_keyword(Keyword::ZONE)?;
                let v = self.parse_optional_option_value()?;
                Ok(node(Kind::KafkaBrokerAwsPrivatelinkOption, trees2(node(Kind::AvailabilityZone, trees0()), v)))
            },
            _ => {
                let v = self.parse_optional_option_value()?;
                Ok(node(Kind::KafkaBrokerAwsPrivatelinkOption, trees2(node(Kind::Port, trees0()), v)))
            },
        }
    }
}

/// What [`Parser::parse_kafka_broker_aws_private_link_option_list`] yields from the token at `i` on.
#[verifier::opaque]
pub open spec fn kafka_broker_aws_private_link_option_list(p: Input, i: int, items: Seq<TreeView>) -> Out<Seq<TreeView>>
    decreases p.toks.len() - i, 0int,
{
    match past(p, i, kafka_broker_aws_private_link_option(p, i)) { Failed(e, i) => Failed(e, i), Got(item, i) => {
    if at_token(p, i, TokenView::Comma) {
        let i = i + 1;
        kafka_broker_aws_private_link_option_list(p, i, items.push(item))
    } else {
        Got(items.push(item), i)
    }
    }}
}

impl Parser {
    /// Parses one or more `kafka_broker_aws_private_link_option`, separated by commas, after those in `items`.
    pub fn parse_kafka_broker_aws_private_link_option_list(&mut self, mut items: Trees) -> (r: Result<Trees, Failure>)
        requires
            old(self).ready(),
        ensures
            final(self).follows(*old(self), kafka_broker_aws_private_link_option_list(old(self).input(), old(self).index as int, items@), r),
            r is Ok ==> final(self).index > old(self).index,
            r matches Ok(all) ==> all@.len() > items@.len(),
            r matches Err(e) ==> !(e@ is Unhandled),
        decreases old(self).tokens.len() - old(self).index, 0int,
    {
        broadcast use group_tree_views;

        proof {
            reveal(kafka_broker_aws_private_link_option_list);
        }
        let ghost before = *self;
        let ghost given = items@.len();
        let ghost goal = kafka_broker_aws_private_link_option_list(self.input(), self.index as int, items@);
        #[verifier::loop_isolation(false)]
        loop
            invariant
                self.ready(),
                self.input() == before.input(),
                self.tokens.len() == before.tokens.len(),
                before.index <= self.index,
                before == *old(self),
                given <= items@.len(),
                kafka_broker_aws_private_link_option_list(self.input(), self.index as int, items@) == goal,
            decreases self.tokens.len() - self.index,
        {
            proof {
                reveal(kafka_broker_aws_private_link_option_list);
            }
            let item = self.parse_kafka_broker_aws_private_link_option()?;
            if self.consume_token(&Token::Comma) {
                items = items.with(item);
                continue;
            } else {
                return Ok(items.with(item));
            }
        }
    }
}

/// What [`Parser::parse_kafka_connection_reference`] yields from the token at `i` on.
#[verifier::opaque]
pub open spec fn kafka_connection_reference(p: Input, i: int) -> Out<TreeView>
{
    match raw_name(p, i) { Failed(e, i) => Failed(e, i), Got(connection, i) => {
    match {
        if at_token(p, i, TokenView::LParen) {
            let i = i + 1;
            match kafka_config_option_list(p, i, Seq::<TreeView>::empty()) { Failed(e, i) => Failed(e, i), Got(os, i) => {
            match token(p, i, TokenView::RParen) { Failed(e, i) => Failed(e, i), Got(_, i) => {
            Got(TreeView::List(os), i)
            }}
            }}
        } else {
            Got(TreeView::List(Seq::<TreeView>::empty()), i)
        }
    } { Failed(e, i) => Failed(e, i), Got(options, i) => {
    Got(TreeView::Node(Kind::KafkaConnectionReference, seq![connection, options]), i)
    }}
    }}
}

impl Parser {
    /// Parse a reference to a Kafka connection.
    pub fn parse_kafka_connection_reference(&mut self) -> (r: Result<Tree, Failure>)
        requires
            old(self).ready(),
        ensures
            final(self).follows(*old(self), kafka_connection_reference(old(self).input(), old(self).index as int), r),
            r is Ok ==> final(self).index > old(self).index,
    {
        broadcast use group_tree_views;

        proof {
            reveal(kafka_connection_reference);
        }
        let connection = self.parse_raw_name()?;
        let options = if self.consume_token(&Token::LParen) {
            let os = self.parse_kafka_config_option_list(trees0())?;
            self.expect_token(&Token::RParen)?;
            list(os)
        } else {
            list(trees0())
        };
        Ok(node(Kind::KafkaConnectionReference, trees2(connection, options)))
    }
}

/// What [`Parser::parse_kafka_config_option`] yields from the token at `i` on.
#[verifier::opaque]
pub open spec fn kafka_config_option(p: Input, i: int) -> Out<TreeView>
{
    match one_keyword(p, i, seq![Keyword::ACKS, Keyword::CLIENT, Keyword::ENABLE, Keyword::FETCH, Keyword::GROUP, Keyword::ISOLATION, Keyword::PARTITION, Keyword::REPLICATION, Keyword::RETENTION, Keyword::SNAPSHOT, Keyword::START, Keyword::TOPIC, Keyword::TRANSACTION]) { Failed(e, i) => Failed(e, i), Got(k, i) => {
    match {
        match k {
            Keyword::ACKS => {
                Got(TreeView::Node(Kind::Acks, Seq::<TreeView>::empty()), i)
            },
            Keyword::CLIENT => {
                match keyword(p, i, Keyword::ID) { Failed(e, i) => Failed(e, i), Got(_, i) => {
                Got(TreeView::Node(Kind::ClientId, Seq::<TreeView>::empty()), i)
                }}
            },
            Keyword::ENABLE => {
                match keyword(p, i, Keyword::IDEMPOTENCE) { Failed(e, i) => Failed(e, i), Got(_, i) => {
                Got(TreeView::Node(Kind::EnableIdempotence, Seq::<TreeView>::empty()), i)
                }}
            },
            Keyword::FETCH => {
                match keyword(p, i, Keyword::MESSAGE) { Failed(e, i) => Failed(e, i), Got(_, i) => {
                match keyword(p, i, Keyword::MAX) { Failed(e, i) => Failed(e, i), Got(_, i) => {
                match keyword(p, i, Keyword::BYTES) { Failed(e, i) => Failed(e, i), Got(_, i) => {
                Got(TreeView::Node(Kind::FetchMessageMaxBytes, Seq::<TreeView>::empty()), i)
                }}}}}}
            },
            Keyword::GROUP => {
                match keyword(p, i, Keyword::ID) { Failed(e, i) => Failed(e, i), Got(_, i) => {
                match keyword(p, i, Keyword::PREFIX) { Failed(e, i) => Failed(e, i), Got(_, i) => {
                Got(TreeView::Node(Kind::GroupIdPrefix, Seq::<TreeView>::empty()), i)
                }}}}
            },
            Keyword::ISOLATION => {
                match keyword(p, i, Keyword::LEVEL) { Failed(e, i) => Failed(e, i), Got(_, i) => {
                Got(TreeView::Node(Kind::IsolationLevel, Seq::<TreeView>::empty()), i)
                }}
            },
            Keyword::PARTITION => {
                match keyword(p, i, Keyword::COUNT) { Failed(e, i) => Failed(e, i), Got(_, i) => {
                Got(TreeView::Node(Kind::PartitionCount, Seq::<TreeView>::empty()), i)
                }}
            },
            Keyword::REPLICATION => {
                match keyword(p, i, Keyword::FACTOR) { Failed(e, i) => Failed(e, i), Got(_, i) => {
                Got(TreeView::Node(Kind::ReplicationFactor, Seq::<TreeView>::empty()), i)
                }}
            },
            Keyword::RETENTION => {
                match one_keyword(p, i, seq![Keyword::BYTES, Keyword::MS]) { Failed(e, i) => Failed(e, i), Got(which, i) => {
                if which == Keyword::BYTES {
                    Got(TreeView::Node(Kind::RetentionBytes, Seq::<TreeView>::empty()), i)
                } else {
                    Got(TreeView::Node(Kind::RetentionMs, Seq::<TreeView>::empty()), i)
                }
                }}
            },
            Keyword::TOPIC => {
                if at_keyword(p, i, Keyword::METADATA) {
                    let i = i + 1;
                    match keyword(p, i, Keyword::REFRESH) { Failed(e, i) => Failed(e, i), Got(_, i) => {
                    match keyword(p, i, Keyword::INTERVAL) { Failed(e, i) => Failed(e, i), Got(_, i) => {
                    match keyword(p, i, Keyword::MS) { Failed(e, i) => Failed(e, i), Got(_, i) => {
                    Got(TreeView::Node(Kind::TopicMetadataRefreshIntervalMs, Seq::<TreeView>::empty()), i)
                    }}}}}}
                } else {
                    Got(TreeView::Node(Kind::Topic, Seq::<TreeView>::empty()), i)
                }
            },
            Keyword::TRANSACTION => {
                match keyword(p, i, Keyword::TIMEOUT) { Failed(e, i) => Failed(e, i), Got(_, i) => {
                match keyword(p, i, Keyword::MS) { Failed(e, i) => Failed(e, i), Got(_, i) => {
                Got(TreeView::Node(Kind::TransactionTimeoutMs, Seq::<TreeView>::empty()), i)
                }}}}
            },
            Keyword::START => {
                match one_keyword(p, i, seq![Keyword::OFFSET, Keyword::TIMESTAMP]) { Failed(e, i) => Failed(e, i), Got(which, i) => {
                if which == Keyword::OFFSET {
                    Got(TreeView::Node(Kind::StartOffset, Seq::<TreeView>::empty()), i)
                } else {
                    Got(TreeView::Node(Kind::StartTimestamp, Seq::<TreeView>::empty()), i)
                }
                }}
            },
            _ => {
                Failed(FailureView::Unhandled, i)
            },
        }
    } { Failed(e, i) => Failed(e, i), Got(name, i) => {
    match optional_option_value(p, i) { Failed(e, i) => Failed(e, i), Got(v, i) => {
    Got(TreeView::Node(Kind::KafkaConfigOption, seq![name, v]), i)
    }}
    }}
    }}
}

impl Parser {
    /// Parse an option of a Kafka reference.
    #[verifier::rlimit(60)]
    pub fn parse_kafka_config_option(&mut self) -> (r: Result<Tree, Failure>)
        requires
            old(self).ready(),
        ensures
            final(self).follows(*old(self), kafka_config_option(old(self).input(), old(self).index as int), r),
            r is Ok ==> final(self).index > old(self).index,
    {
        broadcast use group_tree_views;

        proof {
            reveal(kafka_config_option);
        }
        let choices: [Keyword; 13] = [Keyword::ACKS, Keyword::CLIENT, Keyword::ENABLE, Keyword::FETCH, Keyword::GROUP, Keyword::ISOLATION, Keyword::PARTITION, Keyword::REPLICATION, Keyword::RETENTION, Keyword::SNAPSHOT, Keyword::START, Keyword::TOPIC, Keyword::TRANSACTION];
        assert(choices@ =~= seq![Keyword::ACKS, Keyword::CLIENT, Keyword::ENABLE, Keyword::FETCH, Keyword::GROUP, Keyword::ISOLATION, Keyword::PARTITION, Keyword::REPLICATION, Keyword::RETENTION, Keyword::SNAPSHOT, Keyword::START, Keyword::TOPIC, Keyword::TRANSACTION]);
        let k = self.expect_one_of_keywords(&choices)?;
        let name = match k {
            Keyword::ACKS => {
                node(Kind::Acks, trees0())
            },
            Keyword::CLIENT => {
                self.expect_keyword(Keyword::ID)?;
                node(Kind::ClientId, trees0())
            },
            Keyword::ENABLE => {
                self.expect_keyword(Keyword::IDEMPOTENCE)?;
                node(Kind::EnableIdempotence, trees0())
            },
            Keyword::FETCH => {
                self.expect_keyword(Keyword::MESSAGE)?;
                self.expect_keyword(Keyword::MAX)?;
                self.expect_keyword(Keyword::BYTES)?;
                node(Kind::FetchMessageMaxBytes, trees0())
            },
            Keyword::GROUP => {
                self.expect_keyword(Keyword::ID)?;
                self.expect_keyword(Keyword::PREFIX)?;
                node(Kind::GroupIdPrefix, trees0())
            },
            Keyword::ISOLATION => {
                self.expect_keyword(Keyword::LEVEL)?;
                node(Kind::IsolationLevel, trees0())
            },
            Keyword::PARTITION => {
                self.expect_keyword(Keyword::COUNT)?;
                node(Kind::PartitionCount, trees0())
            },
            Keyword::REPLICATION => {
                self.expect_keyword(Keyword::FACTOR)?;
                node(Kind::ReplicationFactor, trees0())
            },
            Keyword::RETENTION => {
                let choices: [Keyword; 2] = [Keyword::BYTES, Keyword::MS];
                assert(choices@ =~= seq![Keyword::BYTES, Keyword::MS]);
                let which = self.expect_one_of_keywords(&choices)?;
                if which == Keyword::BYTES {
                    node(Kind::RetentionBytes, trees0())
                } else {
                    node(Kind::RetentionMs, trees0())
                }
            },
            Keyword::TOPIC => {
                if self.parse_keyword(Keyword::METADATA) {
                    self.expect_keyword(Keyword::REFRESH)?;
                    self.expect_keyword(Keyword::INTERVAL)?;
                    self.expect_keyword(Keyword::MS)?;
                    node(Kind::TopicMetadataRefreshIntervalMs, trees0())
                } else {
                    node(Kind::Topic, trees0())
                }
            },
            Keyword::TRANSACTION => {
                self.expect_keyword(Keyword::TIMEOUT)?;
                self.expect_keyword(Keyword::MS)?;
                node(Kind::TransactionTimeoutMs, trees0())
            },
            Keyword::START => {
                let choices: [Keyword; 2] = [Keyword::OFFSET, Keyword::TIMESTAMP];
                assert(choices@ =~= seq![Keyword::OFFSET, Keyword::TIMESTAMP]);
                let which = self.expect_one_of_keywords(&choices)?;
                if which == Keyword::OFFSET {
                    node(Kind::StartOffset, trees0())
                } else {
                    node(Kind::StartTimestamp, trees0())
                }
            },
            _ => {
                return Err(Failure::Unhandled);
            },
        };
        let v = self.parse_optional_option_value()?;
        Ok(node(Kind::KafkaConfigOption, trees2(name, v)))
    }
}

/// What [`Parser::parse_kafka_config_option_list`] yields from the token at `i` on.
#[verifier::opaque]
pub open spec fn kafka_config_option_list(p: Input, i: int, items: Seq<TreeView>) -> Out<Seq<TreeView>>
    decreases p.toks.len() - i, 0int,
{
    match past(p, i, kafka_config_option(p, i)) { Failed(e, i) => Failed(e, i), Got(item, i) => {
    if at_token(p, i, TokenView::Comma) {
        let i = i + 1;
        kafka_config_option_list(p, i, items.push(item))
    } else {
        Got(items.push(item), i)
    }
    }}
}

impl Parser {
    /// Parses one or more `kafka_config_option`, separated by commas, after those in `items`.
    pub fn parse_kafka_config_option_list(&mut self, mut items: Trees) -> (r: Result<Trees, Failure>)
        requires
            old(self).ready(),
        ensures
            final(self).follows(*old(self), kafka_config_option_list(old(self).input(), old(self).index as int, items@), r),
            r is Ok ==> final(self).index > old(self).index,
            r matches Ok(all) ==> all@.len() > items@.len(),
        decreases old(self).tokens.len() - old(self).index, 0int,
    {
        broadcast use group_tree_views;

        proof {
            reveal(kafka_config_option_list);
        }
        let ghost before = *self;
        let ghost given = items@.len();
        let ghost goal = kafka_config_option_list(self.input(), self.index as int, items@);
        #[verifier::loop_isolation(false)]
        loop
            invariant
                self.ready(),
                self.input() == before.input(),
                self.tokens.len() == before.tokens.len(),
                before.index <= self.index,
                before == *old(self),
                given <= items@.len(),
                kafka_config_option_list(self.input(), self.index as int, items@) == goal,
            decreases self.tokens.len() - self.index,
        {
            proof {
                reveal(kafka_config_option_list);
            }
            let item = self.parse_kafka_config_option()?;
            if self.consume_token(&Token::Comma) {
                items = items.with(item);
                continue;
            } else {
                return Ok(items.with(item));
            }
        }
    }
}

/// What [`Parser::parse_ssl_option_name`] yields from the token at `i` on.
#[verifier::opaque]
pub open spec fn ssl_option_name(p: Input, i: int) -> Out<TreeView>
{
    match one_keyword(p, i, seq![Keyword::KEY, Keyword::CERTIFICATE]) { Failed(e, i) => Failed(e, i), Got(which, i) => {
    match which {
        Keyword::KEY => {
            Got(TreeView::Node(Kind::SslKey, Seq::<TreeView>::empty()), i)
        },
        _ => {
            if at_keyword(p, i, Keyword::AUTHORITY) {
                let i = i + 1;
                Got(TreeView::Node(Kind::SslCertificateAuthority, Seq::<TreeView>::empty()), i)
            } else {
                Got(TreeView::Node(Kind::SslCertificate, Seq::<TreeView>::empty()), i)
            }
        },
    }
    }}
}

impl Parser {
    /// Parse what follows `SSL`: which of its files is meant.
    pub fn parse_ssl_option_name(&mut self) -> (r: Result<Tree, Failure>)
        requires
            old(self).ready(),
        ensures
            final(self).follows(*old(self), ssl_option_name(old(self).input(), old(self).index as int), r),
            r is Ok ==> final(self).index > old(self).index,
            r matches Err(e) ==> !(e@ is Unhandled),
    {
        broadcast use group_tree_views;

        proof {
            reveal(ssl_option_name);
        }
        let choices: [Keyword; 2] = [Keyword::KEY, Keyword::CERTIFICATE];
        assert(choices@ =~= seq![Keyword::KEY, Keyword::CERTIFICATE]);
        let which = self.expect_one_of_keywords(&choices)?;
        match which {
            Keyword::KEY => {
                Ok(node(Kind::SslKey, trees0()))
            },
            _ => {
                if self.parse_keyword(Keyword::AUTHORITY) {
                    Ok(node(Kind::SslCertificateAuthority, trees0()))
                } else {
                    Ok(node(Kind::SslCertificate, trees0()))
                }
            },
        }
    }
}

/// What [`Parser::parse_csr_connection_option`] yields from the token at `i` on.
#[verifier::opaque]
pub open spec fn csr_connection_option(p: Input, i: int) -> Out<TreeView>
{
    match one_keyword(p, i, seq![Keyword::AWS, Keyword::PASSWORD, Keyword::PORT, Keyword::SSH, Keyword::SSL, Keyword::URL, Keyword::USERNAME]) { Failed(e, i) => Failed(e, i), Got(k, i) => {
    match k {
        Keyword::AWS => {
            match keyword(p, i, Keyword::PRIVATELINK) { Failed(e, i) => Failed(e, i), Got(_, i) => {
            match object_option_value(p, i) { Failed(e, i) => Failed(e, i), Got(v, i) => {
            Got(TreeView::Node(Kind::CsrConnectionOption, seq![TreeView::Node(Kind::AwsPrivatelink, Seq::<TreeView>::empty()), v]), i)
            }}
            }}
        },
        Keyword::SSH => {
            match keyword(p, i, Keyword::TUNNEL) { Failed(e, i) => Failed(e, i), Got(_, i) => {
            match object_option_value(p, i) { Failed(e, i) => Failed(e, i), Got(v, i) => {
            Got(TreeView::Node(Kind::CsrConnectionOption, seq![TreeView::Node(Kind::SshTunnel, Seq::<TreeView>::empty()), v]), i)
            }}
            }}
        },
        _ => {
            match {
                match k {
                    Keyword::PASSWORD => {
                        Got(TreeView::Node(Kind::Password, Seq::<TreeView>::empty()), i)
                    },
                    Keyword::PORT => {
                        Got(TreeView::Node(Kind::Port, Seq::<TreeView>::empty()), i)
                    },
                    Keyword::SSL => {
                        ssl_option_name(p, i)
                    },
                    Keyword::URL => {
                        Got(TreeView::Node(Kind::Url, Seq::<TreeView>::empty()), i)
                    },
                    _ => {
                        Got(TreeView::Node(Kind::Username, Seq::<TreeView>::empty()), i)
                    },
                }
            } { Failed(e, i) => Failed(e, i), Got(name, i) => {
            match optional_option_value(p, i) { Failed(e, i) => Failed(e, i), Got(v, i) => {
            Got(TreeView::Node(Kind::CsrConnectionOption, seq![name, v]), i)
            }}
            }}
        },
    }
    }}
}

impl Parser {
    /// Parse an option of a schema registry connection.
    #[verifier::rlimit(30)]
    pub fn parse_csr_connection_option(&mut self) -> (r: Result<Tree, Failure>)
        requires
            old(self).ready(),
        ensures
            final(self).follows(*old(self), csr_connection_option(old(self).input(), old(self).index as int), r),
            r is Ok ==> final(self).index > old(self).index,
            r matches Err(e) ==> !(e@ is Unhandled),
    {
        broadcast use group_tree_views;

        proof {
            reveal(csr_connection_option);
        }
        let choices: [Keyword; 7] = [Keyword::AWS, Keyword::PASSWORD, Keyword::PORT, Keyword::SSH, Keyword::SSL, Keyword::URL, Keyword::USERNAME];
        assert(choices@ =~= seq![Keyword::AWS, Keyword::PASSWORD, Keyword::PORT, Keyword::SSH, Keyword::SSL, Keyword::URL, Keyword::USERNAME]);
        let k = self.expect_one_of_keywords(&choices)?;
        match k {
            Keyword::AWS => {
                self.expect_keyword(Keyword::PRIVATELINK)?;
                let v = self.parse_object_option_value()?;
                Ok(node(Kind::CsrConnectionOption, trees2(node(Kind::AwsPrivatelink, trees0()), v)))
            },
            Keyword::SSH => {
                self.expect_keyword(Keyword::TUNNEL)?;
                let v = self.parse_object_option_value()?;
                Ok(node(Kind::CsrConnectionOption, trees2(node(Kind::SshTunnel, trees0()), v)))
            },
            _ => {
                let name = match k {
                    Keyword::PASSWORD => {
                        node(Kind::Password, trees0())
                    },
                    Keyword::PORT => {
                        node(Kind::Port, trees0())
                    },
                    Keyword::SSL => {
                        self.parse_ssl_option_name()?
                    },
                    Keyword::URL => {
                        node(Kind::Url, trees0())
                    },
                    _ => {
                        node(Kind::Username, trees0())
                    },
                };
                let v = self.parse_optional_option_value()?;
                Ok(node(Kind::CsrConnectionOption, trees2(name, v)))
            },
        }
    }
}

/// What [`Parser::parse_csr_connection_option_list`] yields from the token at `i` on.
#[verifier::opaque]
pub open spec fn csr_connection_option_list(p: Input, i: int, items: Seq<TreeView>) -> Out<Seq<TreeView>>
    decreases p.toks.len() - i, 0int,
{
    match past(p, i, csr_connection_option(p, i)) { Failed(e, i) => Failed(e, i), Got(item, i) => {
    if at_token(p, i, TokenView::Comma) {
        let i = i + 1;
        csr_connection_option_list(p, i, items.push(item))
    } else {
        Got(items.push(item), i)
    }
    }}
}

impl Parser {
    /// Parses one or more `csr_connection_option`, separated by commas, after those in `items`.
    pub fn parse_csr_connection_option_list(&mut self, mut items: Trees) -> (r: Result<Trees, Failure>)
        requires
            old(self).ready(),
        ensures
            final(self).follows(*old(self), csr_connection_option_list(old(self).input(), old(self).index as int, items@), r),
            r is Ok ==> final(self).index > old(self).index,
            r matches Ok(all) ==> all@.len() > items@.len(),
            r matches Err(e) ==> !(e@ is Unhandled),
        decreases old(self).tokens.len() - old(self).index, 0int,
    {
        broadcast use group_tree_views;

        proof {
            reveal(csr_connection_option_list);
        }
        let ghost before = *self;
        let ghost given = items@.len();
        let ghost goal = csr_connection_option_list(self.input(), self.index as int, items@);
        #[verifier::loop_isolation(false)]
        loop
            invariant
                self.ready(),
                self.input() == before.input(),
                self.tokens.len() == before.tokens.len(),
                before.index <= self.index,
                before == *old(self),
                given <= items@.len(),
                csr_connection_option_list(self.input(), self.index as int, items@) == goal,
            decreases self.tokens.len() - self.index,
        {
            proof {
                reveal(csr_connection_option_list);
            }
            let item = self.parse_csr_connection_option()?;
            if self.consume_token(&Token::Comma) {
                items = items.with(item);
                continue;
            } else {
                return Ok(items.with(item));
            }
        }
    }
}

/// What [`Parser::parse_postgres_connection_option`] yields from the token at `i` on.
#[verifier::opaque]
pub open spec fn postgres_connection_option(p: Input, i: int) -> Out<TreeView>
{
    match one_keyword(p, i, seq![Keyword::AWS, Keyword::DATABASE, Keyword::HOST, Keyword::PASSWORD, Keyword::PORT, Keyword::SSH, Keyword::SSL, Keyword::USER, Keyword::USERNAME]) { Failed(e, i) => Failed(e, i), Got(k, i) => {
    match k {
        Keyword::AWS => {
            match keyword(p, i, Keyword::PRIVATELINK) { Failed(e, i) => Failed(e, i), Got(_, i) => {
            match object_option_value(p, i) { Failed(e, i) => Failed(e, i), Got(v, i) => {
            Got(TreeView::Node(Kind::PostgresConnectionOption, seq![TreeView::Node(Kind::AwsPrivatelink, Seq::<TreeView>::empty()), v]), i)
            }}
            }}
        },
        Keyword::SSH => {
            match keyword(p, i, Keyword::TUNNEL) { Failed(e, i) => Failed(e, i), Got(_, i) => {
            match object_option_value(p, i) { Failed(e, i) => Failed(e, i), Got(v, i) => {
            Got(TreeView::Node(Kind::PostgresConnectionOption, seq![TreeView::Node(Kind::SshTunnel, Seq::<TreeView>::empty()), v]), i)
            }}
            }}
        },
        _ => {
            match {
                match k {
                    Keyword::DATABASE => {
                        Got(TreeView::Node(Kind::Database, Seq::<TreeView>::empty()), i)
                    },
                    Keyword::HOST => {
                        Got(TreeView::Node(Kind::Host, Seq::<TreeView>::empty()), i)
                    },
                    Keyword::PASSWORD => {
                        Got(TreeView::Node(Kind::Password, Seq::<TreeView>::empty()), i)
                    },
                    Keyword::PORT => {
                        Got(TreeView::Node(Kind::Port, Seq::<TreeView>::empty()), i)
                    },
                    Keyword::SSL => {
                        match one_keyword(p, i, seq![Keyword::CERTIFICATE, Keyword::MODE, Keyword::KEY]) { Failed(e, i) => Failed(e, i), Got(which, i) => {
                        match which {
                            Keyword::CERTIFICATE => {
                                if at_keyword(p, i, Keyword::AUTHORITY) {
                                    let i = i + 1;
                                    Got(TreeView::Node(Kind::SslCertificateAuthority, Seq::<TreeView>::empty()), i)
                                } else {
                                    Got(TreeView::Node(Kind::SslCertificate, Seq::<TreeView>::empty()), i)
                                }
                            },
                            Keyword::KEY => {
                                Got(TreeView::Node(Kind::SslKey, Seq::<TreeView>::empty()), i)
                            },
                            _ => {
                                Got(TreeView::Node(Kind::SslMode, Seq::<TreeView>::empty()), i)
                            },
                        }
                        }}
                    },
                    _ => {
                        Got(TreeView::Node(Kind::User, Seq::<TreeView>::empty()), i)
                    },
                }
            } { Failed(e, i) => Failed(e, i), Got(name, i) => {
            match optional_option_value(p, i) { Failed(e, i) => Failed(e, i), Got(v, i) => {
            Got(TreeView::Node(Kind::PostgresConnectionOption, seq![name, v]), i)
            }}
            }}
        },
    }
    }}
}

impl Parser {
    /// Parse an option of a PostgreSQL connection.
    #[verifier::rlimit(60)]
    pub fn parse_postgres_connection_option(&mut self) -> (r: Result<Tree, Failure>)
        requires
            old(self).ready(),
        ensures
            final(self).follows(*old(self), postgres_connection_option(old(self).input(), old(self).index as int), r),
            r is Ok ==> final(self).index > old(self).index,
            r matches Err(e) ==> !(e@ is Unhandled),
    {
        broadcast use group_tree_views;

        proof {
            reveal(postgres_connection_option);
        }
        let choices: [Keyword; 9] = [Keyword::AWS, Keyword::DATABASE, Keyword::HOST, Keyword::PASSWORD, Keyword::PORT, Keyword::SSH, Keyword::SSL, Keyword::USER, Keyword::USERNAME];
        assert(choices@ =~= seq![Keyword::AWS, Keyword::DATABASE, Keyword::HOST, Keyword::PASSWORD, Keyword::PORT, Keyword::SSH, Keyword::SSL, Keyword::USER, Keyword::USERNAME]);
        let k = self.expect_one_of_keywords(&choices)?;
        match k {
            Keyword::AWS => {
                self.expect_keyword(Keyword::PRIVATELINK)?;
                let v = self.parse_object_option_value()?;
                Ok(node(Kind::PostgresConnectionOption, trees2(node(Kind::AwsPrivatelink, trees0()), v)))
            },
            Keyword::SSH => {
                self.expect_keyword(Keyword::TUNNEL)?;
                let v = self.parse_object_option_value()?;
                Ok(node(Kind::PostgresConnectionOption, trees2(node(Kind::SshTunnel, trees0()), v)))
            },
            _ => {
                let name = match k {
                    Keyword::DATABASE => {
                        node(Kind::Database, trees0())
                    },
                    Keyword::HOST => {
                        node(Kind::Host, trees0())
                    },
                    Keyword::PASSWORD => {
                        node(Kind::Password, trees0())
                    },
                    Keyword::PORT => {
                        node(Kind::Port, trees0())
                    },
                    Keyword::SSL => {
                        let choices: [Keyword; 3] = [Keyword::CERTIFICATE, Keyword::MODE, Keyword::KEY];
                        assert(choices@ =~= seq![Keyword::CERTIFICATE, Keyword::MODE, Keyword::KEY]);
                        let which = self.expect_one_of_keywords(&choices)?;
                        match which {
                            Keyword::CERTIFICATE => {
                                if self.parse_keyword(Keyword::AUTHORITY) {
                                    node(Kind::SslCertificateAuthority, trees0())
                                } else {
                                    node(Kind::SslCertificate, trees0())
                                }
                            },
                            Keyword::KEY => {
                                node(Kind::SslKey, trees0())
                            },
                            _ => {
                                node(Kind::SslMode, trees0())
                            },
                        }
                    },
                    _ => {
                        node(Kind::User, trees0())
                    },
                };
                let v = self.parse_optional_option_value()?;
                Ok(node(Kind::PostgresConnectionOption, trees2(name, v)))
            },
        }
    }
}

/// What [`Parser::parse_postgres_connection_option_list`] yields from the token at `i` on.
#[verifier::opaque]
pub open spec fn postgres_connection_option_list(p: Input, i: int, items: Seq<TreeView>) -> Out<Seq<TreeView>>
    decreases p.toks.len() - i, 0int,
{
    match past(p, i, postgres_connection_option(p, i)) { Failed(e, i) => Failed(e, i), Got(item, i) => {
    if at_token(p, i, TokenView::Comma) {
        let i = i + 1;
        postgres_connection_option_list(p, i, items.push(item))
    } else {
        Got(items.push(item), i)
    }
    }}
}

impl Parser {
    /// Parses one or more `postgres_connection_option`, separated by commas, after those in `items`.
    pub fn parse_postgres_connection_option_list(&mut self, mut items: Trees) -> (r: Result<Trees, Failure>)
        requires
            old(self).ready(),
        ensures
            final(self).follows(*old(self), postgres_connection_option_list(old(self).input(), old(self).index as int, items@), r),
            r is Ok ==> final(self).index > old(self).index,
            r matches Ok(all) ==> all@.len() > items@.len(),
            r matches Err(e) ==> !(e@ is Unhandled),
        decreases old(self).tokens.len() - old(self).index, 0int,
    {
        broadcast use group_tree_views;

        proof {
            reveal(postgres_connection_option_list);
        }
        let ghost before = *self;
        let ghost given = items@.len();
        let ghost goal = postgres_connection_option_list(self.input(), self.index as int, items@);
        #[verifier::loop_isolation(false)]
        loop
            invariant
                self.ready(),
                self.input() == before.input(),
                self.tokens.len() == before.tokens.len(),
                before.index <= self.index,
                before == *old(self),
                given <= items@.len(),
                postgres_connection_option_list(self.input(), self.index as int, items@) == goal,
            decreases self.tokens.len() - self.index,
        {
            proof {
                reveal(postgres_connection_option_list);
            }
            let item = self.parse_postgres_connection_option()?;
            if self.consume_token(&Token::Comma) {
                items = items.with(item);
                continue;
            } else {
                return Ok(items.with(item));
            }
        }
    }
}

/// What [`Parser::parse_aws_connection_option`] yields from the token at `i` on.
#[verifier::opaque]
pub open spec fn aws_connection_option(p: Input, i: int) -> Out<TreeView>
{
    match one_keyword(p, i, seq![Keyword::ACCESS, Keyword::ENDPOINT, Keyword::REGION, Keyword::ROLE, Keyword::SECRET, Keyword::TOKEN]) { Failed(e, i) => Failed(e, i), Got(k, i) => {
    match {
        match k {
            Keyword::ACCESS => {
                match keyword(p, i, Keyword::KEY) { Failed(e, i) => Failed(e, i), Got(_, i) => {
                match keyword(p, i, Keyword::ID) { Failed(e, i) => Failed(e, i), Got(_, i) => {
                Got(TreeView::Node(Kind::AccessKeyId, Seq::<TreeView>::empty()), i)
                }}}}
            },
            Keyword::ENDPOINT => {
                Got(TreeView::Node(Kind::Endpoint, Seq::<TreeView>::empty()), i)
            },
            Keyword::REGION => {
                Got(TreeView::Node(Kind::Region, Seq::<TreeView>::empty()), i)
            },
            Keyword::ROLE => {
                match keyword(p, i, Keyword::ARN) { Failed(e, i) => Failed(e, i), Got(_, i) => {
                Got(TreeView::Node(Kind::RoleArn, Seq::<TreeView>::empty()), i)
                }}
            },
            Keyword::SECRET => {
                match keyword(p, i, Keyword::ACCESS) { Failed(e, i) => Failed(e, i), Got(_, i) => {
                match keyword(p, i, Keyword::KEY) { Failed(e, i) => Failed(e, i), Got(_, i) => {
                Got(TreeView::Node(Kind::SecretAccessKey, Seq::<TreeView>::empty()), i)
                }}}}
            },
            _ => {
                Got(TreeView::Node(Kind::Token, Seq::<TreeView>::empty()), i)
            },
        }
    } { Failed(e, i) => Failed(e, i), Got(name, i) => {
    match optional_option_value(p, i) { Failed(e, i) => Failed(e, i), Got(v, i) => {
    Got(TreeView::Node(Kind::AwsConnectionOption, seq![name, v]), i)
    }}
    }}
    }}
}

impl Parser {
    /// Parse an option of an AWS connection.
    pub fn parse_aws_connection_option(&mut self) -> (r: Result<Tree, Failure>)
        requires
            old(self).ready(),
        ensures
            final(self).follows(*old(self), aws_connection_option(old(self).input(), old(self).index as int), r),
            r is Ok ==> final(self).index > old(self).index,
            r matches Err(e) ==> !(e@ is Unhandled),
    {
        broadcast use group_tree_views;

        proof {
            reveal(aws_connection_option);
        }
        let choices: [Keyword; 6] = [Keyword::ACCESS, Keyword::ENDPOINT, Keyword::REGION, Keyword::ROLE, Keyword::SECRET, Keyword::TOKEN];
        assert(choices@ =~= seq![Keyword::ACCESS, Keyword::ENDPOINT, Keyword::REGION, Keyword::ROLE, Keyword::SECRET, Keyword::TOKEN]);
        let k = self.expect_one_of_keywords(&choices)?;
        let name = match k {
            Keyword::ACCESS => {
                self.expect_keyword(Keyword::KEY)?;
                self.expect_keyword(Keyword::ID)?;
                node(Kind::AccessKeyId, trees0())
            },
            Keyword::ENDPOINT => {
                node(Kind::Endpoint, trees0())
            },
            Keyword::REGION => {
                node(Kind::Region, trees0())
            },
            Keyword::ROLE => {
                self.expect_keyword(Keyword::ARN)?;
                node(Kind::RoleArn, trees0())
            },
            Keyword::SECRET => {
                self.expect_keyword(Keyword::ACCESS)?;
                self.expect_keyword(Keyword::KEY)?;
                node(Kind::SecretAccessKey, trees0())
            },
            _ => {
                node(Kind::Token, trees0())
            },
        };
        let v = self.parse_optional_option_value()?;
        Ok(node(Kind::AwsConnectionOption, trees2(name, v)))
    }
}

/// What [`Parser::parse_aws_connection_option_list`] yields from the token at `i` on.
#[verifier::opaque]
pub open spec fn aws_connection_option_list(p: Input, i: int, items: Seq<TreeView>) -> Out<Seq<TreeView>>
    decreases p.toks.len() - i, 0int,
{
    match past(p, i, aws_connection_option(p, i)) { Failed(e, i) => Failed(e, i), Got(item, i) => {
    if at_token(p, i, TokenView::Comma) {
        let i = i + 1;
        aws_connection_option_list(p, i, items.push(item))
    } else {
        Got(items.push(item), i)
    }
    }}
}

impl Parser {
    /// Parses one or more `aws_connection_option`, separated by commas, after those in `items`.
    pub fn parse_aws_connection_option_list(&mut self, mut items: Trees) -> (r: Result<Trees, Failure>)
        requires
            old(self).ready(),
        ensures
            final(self).follows(*old(self), aws_connection_option_list(old(self).input(), old(self).index as int, items@), r),
            r is Ok ==> final(self).index > old(self).index,
            r matches Ok(all) ==> all@.len() > items@.len(),
            r matches Err(e) ==> !(e@ is Unhandled),
        decreases old(self).tokens.len() - old(self).index, 0int,
    {
        broadcast use group_tree_views;

        proof {
            reveal(aws_connection_option_list);
        }
        let ghost before = *self;
        let ghost given = items@.len();
        let ghost goal = aws_connection_option_list(self.input(), self.index as int, items@);
        #[verifier::loop_isolation(false)]
        loop
            invariant
                self.ready(),
                self.input() == before.input(),
                self.tokens.len() == before.tokens.len(),
                before.index <= self.index,
                before == *old(self),
                given <= items@.len(),
                aws_connection_option_list(self.input(), self.index as int, items@) == goal,
            decreases self.tokens.len() - self.index,
        {
            proof {
                reveal(aws_connection_option_list);
            }
            let item = self.parse_aws_connection_option()?;
            if self.consume_token(&Token::Comma) {
                items = items.with(item);
                continue;
            } else {
                return Ok(items.with(item));
            }
        }
    }
}

/// What [`Parser::parse_aws_privatelink_connection_option`] yields from the token at `i` on.
#[verifier::opaque]
pub open spec fn aws_privatelink_connection_option(p: Input, i: int) -> Out<TreeView>
{
    match one_keyword(p, i, seq![Keyword::SERVICE, Keyword::AVAILABILITY]) { Failed(e, i) => Failed(e, i), Got(k, i) => {
    match {
        match k {
            Keyword::SERVICE => {
                match keyword(p, i, Keyword::NAME) { Failed(e, i) => Failed(e, i), Got(_, i) => {
                Got(TreeView::Node(Kind::ServiceName, Seq::<TreeView>::empty()), i)
                }}
            },
            _ => {
                match keyword(p, i, Keyword::ZONES) { Failed(e, i) => Failed(e, i), Got(_, i) => {
                Got(TreeView::Node(Kind::AvailabilityZones, Seq::<TreeView>::empty()), i)
                }}
            },
        }
    } { Failed(e, i) => Failed(e, i), Got(name, i) => {
    match optional_option_value(p, i) { Failed(e, i) => Failed(e, i), Got(v, i) => {
    Got(TreeView::Node(Kind::AwsPrivatelinkConnectionOption, seq![name, v]), i)
    }}
    }}
    }}
}

impl Parser {
    /// Parse an option of an AWS PrivateLink connection.
    pub fn parse_aws_privatelink_connection_option(&mut self) -> (r: Result<Tree, Failure>)
        requires
            old(self).ready(),
        ensures
            final(self).follows(*old(self), aws_privatelink_connection_option(old(self).input(), old(self).index as int), r),
            r is Ok ==> final(self).index > old(self).index,
            r matches Err(e) ==> !(e@ is Unhandled),
    {
        broadcast use group_tree_views;

        proof {
            reveal(aws_privatelink_connection_option);
        }
        let choices: [Keyword; 2] = [Keyword::SERVICE, Keyword::AVAILABILITY];
        assert(choices@ =~= seq![Keyword::SERVICE, Keyword::AVAILABILITY]);
        let k = self.expect_one_of_keywords(&choices)?;
        let name = match k {
            Keyword::SERVICE => {
                self.expect_keyword(Keyword::NAME)?;
                node(Kind::ServiceName, trees0())
            },
            _ => {
                self.expect_keyword(Keyword::ZONES)?;
                node(Kind::AvailabilityZones, trees0())
            },
        };
        let v = self.parse_optional_option_value()?;
        Ok(node(Kind::AwsPrivatelinkConnectionOption, trees2(name, v)))
    }
}

/// What [`Parser::parse_aws_privatelink_connection_option_list`] yields from the token at `i` on.
#[verifier::opaque]
pub open spec fn aws_privatelink_connection_option_list(p: Input, i: int, items: Seq<TreeView>) -> Out<Seq<TreeView>>
    decreases p.toks.len() - i, 0int,
{
    match past(p, i, aws_privatelink_connection_option(p, i)) { Failed(e, i) => Failed(e, i), Got(item, i) => {
    if at_token(p, i, TokenView::Comma) {
        let i = i + 1;
        aws_privatelink_connection_option_list(p, i, items.push(item))
    } else {
        Got(items.push(item), i)
    }
    }}
}

impl Parser {
    /// Parses one or more `aws_privatelink_connection_option`, separated by commas, after those in `items`.
    pub fn parse_aws_privatelink_connection_option_list(&mut self, mut items: Trees) -> (r: Result<Trees, Failure>)
        requires
            old(self).ready(),
        ensures
            final(self).follows(*old(self), aws_privatelink_connection_option_list(old(self).input(), old(self).index as int, items@), r),
            r is Ok ==> final(self).index > old(self).index,
            r matches Ok(all) ==> all@.len() > items@.len(),
            r matches Err(e) ==> !(e@ is Unhandled),
        decreases old(self).tokens.len() - old(self).index, 0int,
    {
        broadcast use group_tree_views;

        proof {
            reveal(aws_privatelink_connection_option_list);
        }
        let ghost before = *self;
        let ghost given = items@.len();
        let ghost goal = aws_privatelink_connection_option_list(self.input(), self.index as int, items@);
        #[verifier::loop_isolation(false)]
        loop
            invariant
                self.ready(),
                self.input() == before.input(),
                self.tokens.len() == before.tokens.len(),
                before.index <= self.index,
                before == *old(self),
                given <= items@.len(),
                aws_privatelink_connection_option_list(self.input(), self.index as int, items@) == goal,
            decreases self.tokens.len() - self.index,
        {
            proof {
                reveal(aws_privatelink_connection_option_list);
            }
            let item = self.parse_aws_privatelink_connection_option()?;
            if self.consume_token(&Token::Comma) {
                items = items.with(item);
                continue;
            } else {
                return Ok(items.with(item));
            }
        }
    }
}

/// What [`Parser::parse_ssh_connection_option`] yields from the token at `i` on.
#[verifier::opaque]
pub open spec fn ssh_connection_option(p: Input, i: int) -> Out<TreeView>
{
    match one_keyword(p, i, seq![Keyword::HOST, Keyword::PORT, Keyword::USER]) { Failed(e, i) => Failed(e, i), Got(k, i) => {
    match {
        match k {
            Keyword::HOST => {
                Got(TreeView::Node(Kind::Host, Seq::<TreeView>::empty()), i)
            },
            Keyword::PORT => {
                Got(TreeView::Node(Kind::Port, Seq::<TreeView>::empty()), i)
            },
            _ => {
                Got(TreeView::Node(Kind::User, Seq::<TreeView>::empty()), i)
            },
        }
    } { Failed(e, i) => Failed(e, i), Got(name, i) => {
    match optional_option_value(p, i) { Failed(e, i) => Failed(e, i), Got(v, i) => {
    Got(TreeView::Node(Kind::SshConnectionOption, seq![name, v]), i)
    }}
    }}
    }}
}

impl Parser {
    /// Parse an option of an SSH connection.
    pub fn parse_ssh_connection_option(&mut self) -> (r: Result<Tree, Failure>)
        requires
            old(self).ready(),
        ensures
            final(self).follows(*old(self), ssh_connection_option(old(self).input(), old(self).index as int), r),
            r is Ok ==> final(self).index > old(self).index,
            r matches Err(e) ==> !(e@ is Unhandled),
    {
        broadcast use group_tree_views;

        proof {
            reveal(ssh_connection_option);
        }
        let choices: [Keyword; 3] = [Keyword::HOST, Keyword::PORT, Keyword::USER];
        assert(choices@ =~= seq![Keyword::HOST, Keyword::PORT, Keyword::USER]);
        let k = self.expect_one_of_keywords(&choices)?;
        let name = match k {
            Keyword::HOST => {
                node(Kind::Host, trees0())
            },
            Keyword::PORT => {
                node(Kind::Port, trees0())
            },
            _ => {
                node(Kind::User, trees0())
            },
        };
        let v = self.parse_optional_option_value()?;
        Ok(node(Kind::SshConnectionOption, trees2(name, v)))
    }
}

/// What [`Parser::parse_ssh_connection_option_list`] yields from the token at `i` on.
#[verifier::opaque]
pub open spec fn ssh_connection_option_list(p: Input, i: int, items: Seq<TreeView>) -> Out<Seq<TreeView>>
    decreases p.toks.len() - i, 0int,
{
    match past(p, i, ssh_connection_option(p, i)) { Failed(e, i) => Failed(e, i), Got(item, i) => {
    if at_token(p, i, TokenView::Comma) {
        let i = i + 1;
        ssh_connection_option_list(p, i, items.push(item))
    } else {
        Got(items.push(item), i)
    }
    }}
}

impl Parser {
    /// Parses one or more `ssh_connection_option`, separated by commas, after those in `items`.
    pub fn parse_ssh_connection_option_list(&mut self, mut items: Trees) -> (r: Result<Trees, Failure>)
        requires
            old(self).ready(),
        ensures
            final(self).follows(*old(self), ssh_connection_option_list(old(self).input(), old(self).index as int, items@), r),
            r is Ok ==> final(self).index > old(self).index,
            r matches Ok(all) ==> all@.len() > items@.len(),
            r matches Err(e) ==> !(e@ is Unhandled),
        decreases old(self).tokens.len() - old(self).index, 0int,
    {
        broadcast use group_tree_views;

        proof {
            reveal(ssh_connection_option_list);
        }
        let ghost before = *self;
        let ghost given = items@.len();
        let ghost goal = ssh_connection_option_list(self.input(), self.index as int, items@);
        #[verifier::loop_isolation(false)]
        loop
            invariant
                self.ready(),
                self.input() == before.input(),
                self.tokens.len() == before.tokens.len(),
                before.index <= self.index,
                before == *old(self),
                given <= items@.len(),
                ssh_connection_option_list(self.input(), self.index as int, items@) == goal,
            decreases self.tokens.len() - self.index,
        {
            proof {
                reveal(ssh_connection_option_list);
            }
            let item = self.parse_ssh_connection_option()?;
            if self.consume_token(&Token::Comma) {
                items = items.with(item);
                continue;
            } else {
                return Ok(items.with(item));
            }
        }
    }
}

/// What [`Parser::parse_create_subsource`] yields from the token at `i` on.
#[verifier::opaque]
pub open spec fn create_subsource(p: Input, i: int) -> Out<TreeView>
{
    match keyword(p, i, Keyword::SUBSOURCE) { Failed(e, i) => Failed(e, i), Got(_, i) => {
    match if_not_exists(p, i) { Failed(e, i) => Failed(e, i), Got(if_not_exists, i) => {
    match item_name(p, i) { Failed(e, i) => Failed(e, i), Got(name, i) => {
    match columns(p, i) { Failed(e, i) => Failed(e, i), Got(columns, i) => {
    match {
        if at_keyword(p, i, Keyword::WITH) {
            let i = i + 1;
            match token(p, i, TokenView::LParen) { Failed(e, i) => Failed(e, i), Got(_, i) => {
            match create_subsource_option_list(p, i, Seq::<TreeView>::empty()) { Failed(e, i) => Failed(e, i), Got(os, i) => {
            match token(p, i, TokenView::RParen) { Failed(e, i) => Failed(e, i), Got(_, i) => {
            Got(TreeView::List(os), i)
            }}
            }}
            }}
        } else {
            Got(TreeView::List(Seq::<TreeView>::empty()), i)
        }
    } { Failed(e, i) => Failed(e, i), Got(with_options, i) => {
    Got(TreeView::Node(Kind::CreateSubsource, seq![name, TreeView::Flag(if_not_exists), columns, with_options]), i)
    }}
    }}
    }}
    }}
    }}
}

impl Parser {
    /// Parse a `CREATE SUBSOURCE` statement.
    pub fn parse_create_subsource(&mut self) -> (r: Result<Tree, Failure>)
        requires
            old(self).ready(),
        ensures
            final(self).follows(*old(self), create_subsource(old(self).input(), old(self).index as int), r),
            r is Ok ==> final(self).index > old(self).index,
            r matches Err(e) ==> !(e@ is Unhandled),
    {
        broadcast use group_tree_views;

        proof {
            reveal(create_subsource);
        }
        self.expect_keyword(Keyword::SUBSOURCE)?;
        let if_not_exists = self.parse_if_not_exists()?;
        let name = self.parse_item_name()?;
        let columns = self.parse_columns()?;
        let with_options = if self.parse_keyword(Keyword::WITH) {
            self.expect_token(&Token::LParen)?;
            let os = self.parse_create_subsource_option_list(trees0())?;
            self.expect_token(&Token::RParen)?;
            list(os)
        } else {
            list(trees0())
        };
        Ok(node(Kind::CreateSubsource, trees4(name, Tree::Flag(if_not_exists), columns, with_options)))
    }
}

/// What [`Parser::parse_create_subsource_option_name`] yields from the token at `i` on.
#[verifier::opaque]
pub open spec fn create_subsource_option_name(p: Input, i: int) -> Out<TreeView>
{
    match one_keyword(p, i, seq![Keyword::PROGRESS, Keyword::REFERENCES]) { Failed(e, i) => Failed(e, i), Got(k, i) => {
    if k == Keyword::PROGRESS {
        Got(TreeView::Node(Kind::Progress, Seq::<TreeView>::empty()), i)
    } else {
        Got(TreeView::Node(Kind::References, Seq::<TreeView>::empty()), i)
    }
    }}
}

impl Parser {
    /// Parse the name of a CREATE SUBSOURCE optional parameter.
    pub fn parse_create_subsource_option_name(&mut self) -> (r: Result<Tree, Failure>)
        requires
            old(self).ready(),
        ensures
            final(self).follows(*old(self), create_subsource_option_name(old(self).input(), old(self).index as int), r),
            r is Ok ==> final(self).index > old(self).index,
            r matches Err(e) ==> !(e@ is Unhandled),
    {
        broadcast use group_tree_views;

        proof {
            reveal(create_subsource_option_name);
        }
        let choices: [Keyword; 2] = [Keyword::PROGRESS, Keyword::REFERENCES];
        assert(choices@ =~= seq![Keyword::PROGRESS, Keyword::REFERENCES]);
        let k = self.expect_one_of_keywords(&choices)?;
        if k == Keyword::PROGRESS {
            Ok(node(Kind::Progress, trees0()))
        } else {
            Ok(node(Kind::References, trees0()))
        }
    }
}

/// What [`Parser::parse_create_subsource_option`] yields from the token at `i` on.
#[verifier::opaque]
pub open spec fn create_subsource_option(p: Input, i: int) -> Out<TreeView>
{
    match create_subsource_option_name(p, i) { Failed(e, i) => Failed(e, i), Got(name, i) => {
    match optional_option_value(p, i) { Failed(e, i) => Failed(e, i), Got(v, i) => {
    Got(TreeView::Node(Kind::CreateSubsourceOption, seq![name, v]), i)
    }}
    }}
}

impl Parser {
    /// Parse a NAME = VALUE parameter for CREATE SUBSOURCE.
    pub fn parse_create_subsource_option(&mut self) -> (r: Result<Tree, Failure>)
        requires
            old(self).ready(),
        ensures
            final(self).follows(*old(self), create_subsource_option(old(self).input(), old(self).index as int), r),
            r is Ok ==> final(self).index > old(self).index,
            r matches Err(e) ==> !(e@ is Unhandled),
    {
        broadcast use group_tree_views;

        proof {
            reveal(create_subsource_option);
        }
        let name = self.parse_create_subsource_option_name()?;
        let v = self.parse_optional_option_value()?;
        Ok(node(Kind::CreateSubsourceOption, trees2(name, v)))
    }
}

/// What [`Parser::parse_create_subsource_option_list`] yields from the token at `i` on.
#[verifier::opaque]
pub open spec fn create_subsource_option_list(p: Input, i: int, items: Seq<TreeView>) -> Out<Seq<TreeView>>
    decreases p.toks.len() - i, 0int,
{
    match past(p, i, create_subsource_option(p, i)) { Failed(e, i) => Failed(e, i), Got(item, i) => {
    if at_token(p, i, TokenView::Comma) {
        let i = i + 1;
        create_subsource_option_list(p, i, items.push(item))
    } else {
        Got(items.push(item), i)
    }
    }}
}

impl Parser {
    /// Parses one or more `create_subsource_option`, separated by commas, after those in `items`.
    pub fn parse_create_subsource_option_list(&mut self, mut items: Trees) -> (r: Result<Trees, Failure>)
        requires
            old(self).ready(),
        ensures
            final(self).follows(*old(self), create_subsource_option_list(old(self).input(), old(self).index as int, items@), r),
            r is Ok ==> final(self).index > old(self).index,
            r matches Ok(all) ==> all@.len() > items@.len(),
            r matches Err(e) ==> !(e@ is Unhandled),
        decreases old(self).tokens.len() - old(self).index, 0int,
    {
        broadcast use group_tree_views;

        proof {
            reveal(create_subsource_option_list);
        }
        let ghost before = *self;
        let ghost given = items@.len();
        let ghost goal = create_subsource_option_list(self.input(), self.index as int, items@);
        #[verifier::loop_isolation(false)]
        loop
            invariant
                self.ready(),
                self.input() == before.input(),
                self.tokens.len() == before.tokens.len(),
                before.index <= self.index,
                before == *old(self),
                given <= items@.len(),
                create_subsource_option_list(self.input(), self.index as int, items@) == goal,
            decreases self.tokens.len() - self.index,
        {
            proof {
                reveal(create_subsource_option_list);
            }
            let item = self.parse_create_subsource_option()?;
            if self.consume_token(&Token::Comma) {
                items = items.with(item);
                continue;
            } else {
                return Ok(items.with(item));
            }
        }
    }
}

/// What [`Parser::parse_create_source`] yields from the token at `i` on.
#[verifier::opaque]
pub open spec fn create_source(p: Input, i: int) -> Out<TreeView>
{
    match keyword(p, i, Keyword::SOURCE) { Failed(e, i) => Failed(e, i), Got(_, i) => {
    match if_not_exists(p, i) { Failed(e, i) => Failed(e, i), Got(if_not_exists, i) => {
    match item_name(p, i) { Failed(e, i) => Failed(e, i), Got(name, i) => {
    match source_columns(p, i) { Failed(e, i) => Failed(e, i), Got(columns, i) => {
    match optional_in_cluster(p, i) { Failed(e, i) => Failed(e, i), Got(in_cluster, i) => {
    match keyword(p, i, Keyword::FROM) { Failed(e, i) => Failed(e, i), Got(_, i) => {
    match create_source_connection(p, i) { Failed(e, i) => Failed(e, i), Got(connection, i) => {
    match {
        match one_of(p, i, seq![Keyword::KEY, Keyword::FORMAT]) {
            Some(k) => {
                let i = i + 1;
                if k == Keyword::KEY {
                    match keyword(p, i, Keyword::FORMAT) { Failed(e, i) => Failed(e, i), Got(_, i) => {
                    match format(p, i) { Failed(e, i) => Failed(e, i), Got(key, i) => {
                    match keyword(p, i, Keyword::VALUE) { Failed(e, i) => Failed(e, i), Got(_, i) => {
                    match keyword(p, i, Keyword::FORMAT) { Failed(e, i) => Failed(e, i), Got(_, i) => {
                    match format(p, i) { Failed(e, i) => Failed(e, i), Got(v, i) => {
                    Got(TreeView::Node(Kind::KeyValueSourceFormat, seq![key, v]), i)
                    }}
                    }}}}
                    }}
                    }}
                } else {
                    match format(p, i) { Failed(e, i) => Failed(e, i), Got(f, i) => {
                    Got(TreeView::Node(Kind::BareSourceFormat, seq![f]), i)
                    }}
                }
            },
            None => {
                Got(TreeView::Node(Kind::NoSourceFormat, Seq::<TreeView>::empty()), i)
            },
        }
    } { Failed(e, i) => Failed(e, i), Got(format, i) => {
    match source_include_metadata(p, i) { Failed(e, i) => Failed(e, i), Got(include_metadata, i) => {
    match {
        if at_keyword(p, i, Keyword::ENVELOPE) {
            let i = i + 1;
            envelope(p, i)
        } else {
            Got(TreeView::Absent, i)
        }
    } { Failed(e, i) => Failed(e, i), Got(envelope, i) => {
    match {
        if at_keywords2(p, i, Keyword::FOR, Keyword::TABLES) {
            let i = i + 2;
            match token(p, i, TokenView::LParen) { Failed(e, i) => Failed(e, i), Got(_, i) => {
            match subsource_references_list(p, i, Seq::<TreeView>::empty()) { Failed(e, i) => Failed(e, i), Got(subsources, i) => {
            match token(p, i, TokenView::RParen) { Failed(e, i) => Failed(e, i), Got(_, i) => {
            Got(TreeView::Node(Kind::SubsetTables, seq![TreeView::List(subsources)]), i)
            }}
            }}
            }}
        } else {
            if at_keywords2(p, i, Keyword::FOR, Keyword::SCHEMAS) {
                let i = i + 2;
                match token(p, i, TokenView::LParen) { Failed(e, i) => Failed(e, i), Got(_, i) => {
                match identifier_list(p, i, Seq::<TreeView>::empty()) { Failed(e, i) => Failed(e, i), Got(schemas, i) => {
                match token(p, i, TokenView::RParen) { Failed(e, i) => Failed(e, i), Got(_, i) => {
                Got(TreeView::Node(Kind::SubsetSchemas, seq![TreeView::List(schemas)]), i)
                }}
                }}
                }}
            } else {
                if at_keywords3(p, i, Keyword::FOR, Keyword::ALL, Keyword::TABLES) {
                    let i = i + 3;
                    Got(TreeView::Node(Kind::AllSubsources, Seq::<TreeView>::empty()), i)
                } else {
                    Got(TreeView::Absent, i)
                }
            }
        }
    } { Failed(e, i) => Failed(e, i), Got(referenced_subsources, i) => {
    match {
        if at_keywords3(p, i, Keyword::EXPOSE, Keyword::PROGRESS, Keyword::AS) {
            let i = i + 3;
            deferred_item_name(p, i)
        } else {
            Got(TreeView::Absent, i)
        }
    } { Failed(e, i) => Failed(e, i), Got(progress_subsource, i) => {
    match {
        if at_keyword(p, i, Keyword::WITH) {
            let i = i + 1;
            match token(p, i, TokenView::LParen) { Failed(e, i) => Failed(e, i), Got(_, i) => {
            match source_option_list(p, i, Seq::<TreeView>::empty()) { Failed(e, i) => Failed(e, i), Got(os, i) => {
            match token(p, i, TokenView::RParen) { Failed(e, i) => Failed(e, i), Got(_, i) => {
            Got(TreeView::List(os), i)
            }}
            }}
            }}
        } else {
            Got(TreeView::List(Seq::<TreeView>::empty()), i)
        }
    } { Failed(e, i) => Failed(e, i), Got(with_options, i) => {
    Got(TreeView::Node(Kind::CreateSource, seq![name, in_cluster, columns, connection, format, include_metadata, envelope, TreeView::Flag(if_not_exists), referenced_subsources, progress_subsource, with_options]), i)
    }}
    }}
    }}
    }}
    }}
    }}
    }}
    }}
    }}
    }}
    }}
    }}
    }}
}

impl Parser {
    /// Parse a `CREATE SOURCE` statement.
    #[verifier::rlimit(60)]
    pub fn parse_create_source(&mut self) -> (r: Result<Tree, Failure>)
        requires
            old(self).ready(),
        ensures
            final(self).follows(*old(self), create_source(old(self).input(), old(self).index as int), r),
            r is Ok ==> final(self).index > old(self).index,
    {
        broadcast use group_tree_views;

        proof {
            reveal(create_source);
        }
        self.expect_keyword(Keyword::SOURCE)?;
        let if_not_exists = self.parse_if_not_exists()?;
        let name = self.parse_item_name()?;
        let columns = self.parse_source_columns()?;
        let in_cluster = self.parse_optional_in_cluster()?;
        self.expect_keyword(Keyword::FROM)?;
        let connection = self.parse_create_source_connection()?;
        let choices: [Keyword; 2] = [Keyword::KEY, Keyword::FORMAT];
        assert(choices@ =~= seq![Keyword::KEY, Keyword::FORMAT]);
        let format = match self.parse_one_of_keywords(&choices) {
            Some(k) => {
                if k == Keyword::KEY {
                    self.expect_keyword(Keyword::FORMAT)?;
                    let key = self.parse_format()?;
                    self.expect_keyword(Keyword::VALUE)?;
                    self.expect_keyword(Keyword::FORMAT)?;
                    let v = self.parse_format()?;
                    node(Kind::KeyValueSourceFormat, trees2(key, v))
                } else {
                    let f = self.parse_format()?;
                    node(Kind::BareSourceFormat, trees1(f))
                }
            },
            None => {
                node(Kind::NoSourceFormat, trees0())
            },
        };
        let include_metadata = self.parse_source_include_metadata()?;
        let envelope = if self.parse_keyword(Keyword::ENVELOPE) {
            self.parse_envelope()?
        } else {
            Tree::Absent
        };
        let referenced_subsources = if self.parse_keywords2(Keyword::FOR, Keyword::TABLES) {
            self.expect_token(&Token::LParen)?;
            let subsources = self.parse_subsource_references_list(trees0())?;
            self.expect_token(&Token::RParen)?;
            node(Kind::SubsetTables, trees1(list(subsources)))
        } else if self.parse_keywords2(Keyword::FOR, Keyword::SCHEMAS) {
            self.expect_token(&Token::LParen)?;
            let schemas = self.parse_identifier_list(trees0())?;
            self.expect_token(&Token::RParen)?;
            node(Kind::SubsetSchemas, trees1(list(schemas)))
        } else if self.parse_keywords3(Keyword::FOR, Keyword::ALL, Keyword::TABLES) {
            node(Kind::AllSubsources, trees0())
        } else {
            Tree::Absent
        };
        let progress_subsource = if self.parse_keywords3(Keyword::EXPOSE, Keyword::PROGRESS, Keyword::AS) {
            self.parse_deferred_item_name()?
        } else {
            Tree::Absent
        };
        let with_options = if self.parse_keyword(Keyword::WITH) {
            self.expect_token(&Token::LParen)?;
            let os = self.parse_source_option_list(trees0())?;
            self.expect_token(&Token::RParen)?;
            list(os)
        } else {
            list(trees0())
        };
        Ok(node(Kind::CreateSource, trees11(name, in_cluster, columns, connection, format, include_metadata, envelope, Tree::Flag(if_not_exists), referenced_subsources, progress_subsource, with_options)))
    }
}

/// What [`Parser::parse_subsource_references`] yields from the token at `i` on.
#[verifier::opaque]
pub open spec fn subsource_references(p: Input, i: int) -> Out<TreeView>
{
    match item_name(p, i) { Failed(e, i) => Failed(e, i), Got(reference, i) => {
    match {
        match one_of(p, i, seq![Keyword::AS, Keyword::INTO]) {
            Some(_) => {
                let i = i + 1;
                deferred_item_name(p, i)
            },
            None => {
                Got(TreeView::Absent, i)
            },
        }
    } { Failed(e, i) => Failed(e, i), Got(subsource, i) => {
    Got(TreeView::Node(Kind::CreateSourceSubsource, seq![reference, subsource]), i)
    }}
    }}
}

impl Parser {
    /// Parse a table that becomes a subsource.
    pub fn parse_subsource_references(&mut self) -> (r: Result<Tree, Failure>)
        requires
            old(self).ready(),
        ensures
            final(self).follows(*old(self), subsource_references(old(self).input(), old(self).index as int), r),
            r is Ok ==> final(self).index > old(self).index,
            r matches Err(e) ==> !(e@ is Unhandled),
    {
        broadcast use group_tree_views;

        proof {
            reveal(subsource_references);
        }
        let reference = self.parse_item_name()?;
        let choices: [Keyword; 2] = [Keyword::AS, Keyword::INTO];
        assert(choices@ =~= seq![Keyword::AS, Keyword::INTO]);
        let subsource = match self.parse_one_of_keywords(&choices) {
            Some(_) => {
                self.parse_deferred_item_name()?
            },
            None => {
                Tree::Absent
            },
        };
        Ok(node(Kind::CreateSourceSubsource, trees2(reference, subsource)))
    }
}

/// What [`Parser::parse_subsource_references_list`] yields from the token at `i` on.
#[verifier::opaque]
pub open spec fn subsource_references_list(p: Input, i: int, items: Seq<TreeView>) -> Out<Seq<TreeView>>
    decreases p.toks.len() - i, 0int,
{
    match past(p, i, subsource_references(p, i)) { Failed(e, i) => Failed(e, i), Got(item, i) => {
    if at_token(p, i, TokenView::Comma) {
        let i = i + 1;
        subsource_references_list(p, i, items.push(item))
    } else {
        Got(items.push(item), i)
    }
    }}
}

impl Parser {
    /// Parses one or more `subsource_references`, separated by commas, after those in `items`.
    pub fn parse_subsource_references_list(&mut self, mut items: Trees) -> (r: Result<Trees, Failure>)
        requires
            old(self).ready(),
        ensures
            final(self).follows(*old(self), subsource_references_list(old(self).input(), old(self).index as int, items@), r),
            r is Ok ==> final(self).index > old(self).index,
            r matches Ok(all) ==> all@.len() > items@.len(),
            r matches Err(e) ==> !(e@ is Unhandled),
        decreases old(self).tokens.len() - old(self).index, 0int,
    {
        broadcast use group_tree_views;

        proof {
            reveal(subsource_references_list);
        }
        let ghost before = *self;
        let ghost given = items@.len();
        let ghost goal = subsource_references_list(self.input(), self.index as int, items@);
        #[verifier::loop_isolation(false)]
        loop
            invariant
                self.ready(),
                self.input() == before.input(),
                self.tokens.len() == before.tokens.len(),
                before.index <= self.index,
                before == *old(self),
                given <= items@.len(),
                subsource_references_list(self.input(), self.index as int, items@) == goal,
            decreases self.tokens.len() - self.index,
        {
            proof {
                reveal(subsource_references_list);
            }
            let item = self.parse_subsource_references()?;
            if self.consume_token(&Token::Comma) {
                items = items.with(item);
                continue;
            } else {
                return Ok(items.with(item));
            }
        }
    }
}

/// What [`Parser::parse_source_columns`] yields from the token at `i` on.
#[verifier::opaque]
pub open spec fn source_columns(p: Input, i: int) -> Out<TreeView>
{
    if at_token(p, i, TokenView::LParen) {
        let i = i + 1;
        match source_column_list(p, i, Seq::<TreeView>::empty(), TreeView::Absent) { Failed(e, i) => Failed(e, i), Got(columns, i) => {
        match token(p, i, TokenView::RParen) { Failed(e, i) => Failed(e, i), Got(_, i) => {
        Got(columns, i)
        }}
        }}
    } else {
        Got(TreeView::Node(Kind::SourceColumns, seq![TreeView::List(Seq::<TreeView>::empty()), TreeView::Absent]), i)
    }
}

impl Parser {
    /// Parses the column section of a CREATE SOURCE statement which can be
    /// empty or a comma-separated list of column identifiers and a single key
    /// constraint, e.g.
    ///
    /// (col_0, col_i, ..., col_n, key_constraint)
    pub fn parse_source_columns(&mut self) -> (r: Result<Tree, Failure>)
        requires
            old(self).ready(),
        ensures
            final(self).follows(*old(self), source_columns(old(self).input(), old(self).index as int), r),
            r matches Err(e) ==> !(e@ is Unhandled),
    {
        broadcast use group_tree_views;

        proof {
            reveal(source_columns);
        }
        if self.consume_token(&Token::LParen) {
            let columns = self.parse_source_column_list(trees0(), Tree::Absent)?;
            self.expect_token(&Token::RParen)?;
            Ok(columns)
        } else {
            Ok(node(Kind::SourceColumns, trees2(list(trees0()), Tree::Absent)))
        }
    }
}

/// What [`Parser::parse_source_column_list`] yields from the token at `i` on.
#[verifier::opaque]
pub open spec fn source_column_list(p: Input, i: int, columns: Seq<TreeView>, key: TreeView) -> Out<TreeView>
    decreases p.toks.len() - i, 0int,
{
    let at = position(p, i);
    match onward(p, i, key_constraint(p, i)) { Failed(e, i) => Failed(e, i), Got(constraint, i) => {
    if constraint is Absent {
        match past(p, i, identifier(p, i)) { Failed(e, i) => Failed(e, i), Got(column, i) => {
        if at_token(p, i, TokenView::Comma) {
            let i = i + 1;
            source_column_list(p, i, columns.push(column), key)
        } else {
            Got(TreeView::Node(Kind::SourceColumns, seq![TreeView::List(columns.push(column)), key]), i)
        }
        }}
    } else {
        if !(key is Absent) {
            Failed(error_view(at as int, no_text() + "Multiple key constraints not allowed"@), i)
        } else {
            if at_token(p, i, TokenView::Comma) {
                let i = i + 1;
                source_column_list(p, i, columns, constraint)
            } else {
                Got(TreeView::Node(Kind::SourceColumns, seq![TreeView::List(columns), constraint]), i)
            }
        }
    }
    }}
}

impl Parser {
    /// Parses the columns and the key constraint that follow those given.
    pub fn parse_source_column_list(&mut self, mut columns: Trees, mut key: Tree) -> (r: Result<Tree, Failure>)
        requires
            old(self).ready(),
        ensures
            final(self).follows(*old(self), source_column_list(old(self).input(), old(self).index as int, columns@, key@), r),
            r matches Err(e) ==> !(e@ is Unhandled),
        decreases old(self).tokens.len() - old(self).index, 0int,
    {
        broadcast use group_tree_views;

        proof {
            reveal(source_column_list);
        }
        let ghost before = *self;
        let ghost goal = source_column_list(self.input(), self.index as int, columns@, key@);
        #[verifier::loop_isolation(false)]
        loop
            invariant
                self.ready(),
                self.input() == before.input(),
                self.tokens.len() == before.tokens.len(),
                before.index <= self.index,
                before == *old(self),
                source_column_list(self.input(), self.index as int, columns@, key@) == goal,
            decreases self.tokens.len() - self.index,
        {
            proof {
                reveal(source_column_list);
            }
            let at: usize = self.peek_pos();
            let constraint = self.parse_key_constraint()?;
            if constraint.is_absent() {
                let column = self.parse_identifier()?;
                if self.consume_token(&Token::Comma) {
                    columns = columns.with(column);
                    continue;
                } else {
                    return Ok(node(Kind::SourceColumns, trees2(list(columns.with(column)), key)));
                }
            } else if !key.is_absent() {
                let pos: usize = at;
                return Err(error(pos, String::new().concat("Multiple key constraints not allowed")));
            } else if self.consume_token(&Token::Comma) {
                key = constraint;
                continue;
            } else {
                return Ok(node(Kind::SourceColumns, trees2(list(columns), constraint)));
            }
        }
    }
}

/// What [`Parser::parse_key_constraint`] yields from the token at `i` on.
#[verifier::opaque]
pub open spec fn key_constraint(p: Input, i: int) -> Out<TreeView>
{
    if at_keywords2(p, i, Keyword::PRIMARY, Keyword::KEY) {
        let i = i + 2;
        match parenthesized_column_list(p, i, false) { Failed(e, i) => Failed(e, i), Got(columns, i) => {
        match keyword(p, i, Keyword::NOT) { Failed(e, i) => Failed(e, i), Got(_, i) => {
        match keyword(p, i, Keyword::ENFORCED) { Failed(e, i) => Failed(e, i), Got(_, i) => {
        Got(TreeView::Node(Kind::PrimaryKeyNotEnforced, seq![columns]), i)
        }}}}
        }}
    } else {
        Got(TreeView::Absent, i)
    }
}

impl Parser {
    /// Parses a key constraint, if there is one.
    pub fn parse_key_constraint(&mut self) -> (r: Result<Tree, Failure>)
        requires
            old(self).ready(),
        ensures
            final(self).follows(*old(self), key_constraint(old(self).input(), old(self).index as int), r),
            r matches Err(e) ==> !(e@ is Unhandled),
    {
        broadcast use group_tree_views;

        proof {
            reveal(key_constraint);
        }
        if self.parse_keywords2(Keyword::PRIMARY, Keyword::KEY) {
            let columns = self.parse_parenthesized_column_list(false)?;
            self.expect_keyword(Keyword::NOT)?;
            self.expect_keyword(Keyword::ENFORCED)?;
            Ok(node(Kind::PrimaryKeyNotEnforced, trees1(columns)))
        } else {
            Ok(Tree::Absent)
        }
    }
}

/// What [`Parser::parse_source_option_name`] yields from the token at `i` on.
#[verifier::opaque]
pub open spec fn source_option_name(p: Input, i: int) -> Out<TreeView>
{
    match one_keyword(p, i, seq![Keyword::IGNORE, Keyword::SIZE, Keyword::TIMELINE, Keyword::TIMESTAMP, Keyword::DISK]) { Failed(e, i) => Failed(e, i), Got(k, i) => {
    match k {
        Keyword::IGNORE => {
            match keyword(p, i, Keyword::KEYS) { Failed(e, i) => Failed(e, i), Got(_, i) => {
            Got(TreeView::Node(Kind::IgnoreKeys, Seq::<TreeView>::empty()), i)
            }}
        },
        Keyword::SIZE => {
            Got(TreeView::Node(Kind::Size, Seq::<TreeView>::empty()), i)
        },
        Keyword::TIMELINE => {
            Got(TreeView::Node(Kind::Timeline, Seq::<TreeView>::empty()), i)
        },
        Keyword::TIMESTAMP => {
            match keyword(p, i, Keyword::INTERVAL) { Failed(e, i) => Failed(e, i), Got(_, i) => {
            Got(TreeView::Node(Kind::TimestampInterval, Seq::<TreeView>::empty()), i)
            }}
        },
        _ => {
            Got(TreeView::Node(Kind::Disk, Seq::<TreeView>::empty()), i)
        },
    }
    }}
}

impl Parser {
    /// Parses the name of an option in the WITH block of a create source.
    pub fn parse_source_option_name(&mut self) -> (r: Result<Tree, Failure>)
        requires
            old(self).ready(),
        ensures
            final(self).follows(*old(self), source_option_name(old(self).input(), old(self).index as int), r),
            r is Ok ==> final(self).index > old(self).index,
            r matches Err(e) ==> !(e@ is Unhandled),
    {
        broadcast use group_tree_views;

        proof {
            reveal(source_option_name);
        }
        let choices: [Keyword; 5] = [Keyword::IGNORE, Keyword::SIZE, Keyword::TIMELINE, Keyword::TIMESTAMP, Keyword::DISK];
        assert(choices@ =~= seq![Keyword::IGNORE, Keyword::SIZE, Keyword::TIMELINE, Keyword::TIMESTAMP, Keyword::DISK]);
        let k = self.expect_one_of_keywords(&choices)?;
        match k {
            Keyword::IGNORE => {
                self.expect_keyword(Keyword::KEYS)?;
                Ok(node(Kind::IgnoreKeys, trees0()))
            },
            Keyword::SIZE => {
                Ok(node(Kind::Size, trees0()))
            },
            Keyword::TIMELINE => {
                Ok(node(Kind::Timeline, trees0()))
            },
            Keyword::TIMESTAMP => {
                self.expect_keyword(Keyword::INTERVAL)?;
                Ok(node(Kind::TimestampInterval, trees0()))
            },
            _ => {
                Ok(node(Kind::Disk, trees0()))
            },
        }
    }
}

/// What [`Parser::parse_source_option_name_list`] yields from the token at `i` on.
#[verifier::opaque]
pub open spec fn source_option_name_list(p: Input, i: int, items: Seq<TreeView>) -> Out<Seq<TreeView>>
    decreases p.toks.len() - i, 0int,
{
    match past(p, i, source_option_name(p, i)) { Failed(e, i) => Failed(e, i), Got(item, i) => {
    if at_token(p, i, TokenView::Comma) {
        let i = i + 1;
        source_option_name_list(p, i, items.push(item))
    } else {
        Got(items.push(item), i)
    }
    }}
}

impl Parser {
    /// Parses one or more `source_option_name`, separated by commas, after those in `items`.
    pub fn parse_source_option_name_list(&mut self, mut items: Trees) -> (r: Result<Trees, Failure>)
        requires
            old(self).ready(),
        ensures
            final(self).follows(*old(self), source_option_name_list(old(self).input(), old(self).index as int, items@), r),
            r is Ok ==> final(self).index > old(self).index,
            r matches Ok(all) ==> all@.len() > items@.len(),
            r matches Err(e) ==> !(e@ is Unhandled),
        decreases old(self).tokens.len() - old(self).index, 0int,
    {
        broadcast use group_tree_views;

        proof {
            reveal(source_option_name_list);
        }
        let ghost before = *self;
        let ghost given = items@.len();
        let ghost goal = source_option_name_list(self.input(), self.index as int, items@);
        #[verifier::loop_isolation(false)]
        loop
            invariant
                self.ready(),
                self.input() == before.input(),
                self.tokens.len() == before.tokens.len(),
                before.index <= self.index,
                before == *old(self),
                given <= items@.len(),
                source_option_name_list(self.input(), self.index as int, items@) == goal,
            decreases self.tokens.len() - self.index,
        {
            proof {
                reveal(source_option_name_list);
            }
            let item = self.parse_source_option_name()?;
            if self.consume_token(&Token::Comma) {
                items = items.with(item);
                continue;
            } else {
                return Ok(items.with(item));
            }
        }
    }
}

/// What [`Parser::parse_source_option`] yields from the token at `i` on.
#[verifier::opaque]
pub open spec fn source_option(p: Input, i: int) -> Out<TreeView>
{
    match source_option_name(p, i) { Failed(e, i) => Failed(e, i), Got(name, i) => {
    match optional_option_value(p, i) { Failed(e, i) => Failed(e, i), Got(v, i) => {
    Got(TreeView::Node(Kind::CreateSourceOption, seq![name, v]), i)
    }}
    }}
}

impl Parser {
    /// Parses a single valid option in the WITH block of a create source.
    pub fn parse_source_option(&mut self) -> (r: Result<Tree, Failure>)
        requires
            old(self).ready(),
        ensures
            final(self).follows(*old(self), source_option(old(self).input(), old(self).index as int), r),
            r is Ok ==> final(self).index > old(self).index,
            r matches Err(e) ==> !(e@ is Unhandled),
    {
        broadcast use group_tree_views;

        proof {
            reveal(source_option);
        }
        let name = self.parse_source_option_name()?;
        let v = self.parse_optional_option_value()?;
        Ok(node(Kind::CreateSourceOption, trees2(name, v)))
    }
}

/// What [`Parser::parse_source_option_list`] yields from the token at `i` on.
#[verifier::opaque]
pub open spec fn source_option_list(p: Input, i: int, items: Seq<TreeView>) -> Out<Seq<TreeView>>
    decreases p.toks.len() - i, 0int,
{
    match past(p, i, source_option(p, i)) { Failed(e, i) => Failed(e, i), Got(item, i) => {
    if at_token(p, i, TokenView::Comma) {
        let i = i + 1;
        source_option_list(p, i, items.push(item))
    } else {
        Got(items.push(item), i)
    }
    }}
}

impl Parser {
    /// Parses one or more `source_option`, separated by commas, after those in `items`.
    pub fn parse_source_option_list(&mut self, mut items: Trees) -> (r: Result<Trees, Failure>)
        requires
            old(self).ready(),
        ensures
            final(self).follows(*old(self), source_option_list(old(self).input(), old(self).index as int, items@), r),
            r is Ok ==> final(self).index > old(self).index,
            r matches Ok(all) ==> all@.len() > items@.len(),
            r matches Err(e) ==> !(e@ is Unhandled),
        decreases old(self).tokens.len() - old(self).index, 0int,
    {
        broadcast use group_tree_views;

        proof {
            reveal(source_option_list);
        }
        let ghost before = *self;
        let ghost given = items@.len();
        let ghost goal = source_option_list(self.input(), self.index as int, items@);
        #[verifier::loop_isolation(false)]
        loop
            invariant
                self.ready(),
                self.input() == before.input(),
                self.tokens.len() == before.tokens.len(),
                before.index <= self.index,
                before == *old(self),
                given <= items@.len(),
                source_option_list(self.input(), self.index as int, items@) == goal,
            decreases self.tokens.len() - self.index,
        {
            proof {
                reveal(source_option_list);
            }
            let item = self.parse_source_option()?;
            if self.consume_token(&Token::Comma) {
                items = items.with(item);
                continue;
            } else {
                return Ok(items.with(item));
            }
        }
    }
}

/// What [`Parser::parse_create_sink`] yields from the token at `i` on.
#[verifier::opaque]
pub open spec fn create_sink(p: Input, i: int) -> Out<TreeView>
{
    match keyword(p, i, Keyword::SINK) { Failed(e, i) => Failed(e, i), Got(_, i) => {
    match if_not_exists(p, i) { Failed(e, i) => Failed(e, i), Got(if_not_exists, i) => {
    match item_name(p, i) { Failed(e, i) => Failed(e, i), Got(name, i) => {
    match optional_in_cluster(p, i) { Failed(e, i) => Failed(e, i), Got(in_cluster, i) => {
    match keyword(p, i, Keyword::FROM) { Failed(e, i) => Failed(e, i), Got(_, i) => {
    match raw_name(p, i) { Failed(e, i) => Failed(e, i), Got(from, i) => {
    match keyword(p, i, Keyword::INTO) { Failed(e, i) => Failed(e, i), Got(_, i) => {
    match create_sink_connection(p, i) { Failed(e, i) => Failed(e, i), Got(connection, i) => {
    match {
        if at_keyword(p, i, Keyword::FORMAT) {
            let i = i + 1;
            format(p, i)
        } else {
            Got(TreeView::Absent, i)
        }
    } { Failed(e, i) => Failed(e, i), Got(format, i) => {
    match {
        if at_keyword(p, i, Keyword::ENVELOPE) {
            let i = i + 1;
            envelope(p, i)
        } else {
            Got(TreeView::Absent, i)
        }
    } { Failed(e, i) => Failed(e, i), Got(envelope, i) => {
    match {
        if at_keyword(p, i, Keyword::WITH) {
            let i = i + 1;
            match token(p, i, TokenView::LParen) { Failed(e, i) => Failed(e, i), Got(_, i) => {
            match create_sink_option_list(p, i, Seq::<TreeView>::empty()) { Failed(e, i) => Failed(e, i), Got(os, i) => {
            match token(p, i, TokenView::RParen) { Failed(e, i) => Failed(e, i), Got(_, i) => {
            Got(TreeView::List(os), i)
            }}
            }}
            }}
        } else {
            Got(TreeView::List(Seq::<TreeView>::empty()), i)
        }
    } { Failed(e, i) => Failed(e, i), Got(with_options, i) => {
    Got(TreeView::Node(Kind::CreateSink, seq![name, in_cluster, from, connection, format, envelope, TreeView::Flag(if_not_exists), with_options]), i)
    }}
    }}
    }}
    }}
    }}
    }}
    }}
    }}
    }}
    }}
    }}
}

impl Parser {
    /// Parse a `CREATE SINK` statement.
    #[verifier::rlimit(30)]
    pub fn parse_create_sink(&mut self) -> (r: Result<Tree, Failure>)
        requires
            old(self).ready(),
        ensures
            final(self).follows(*old(self), create_sink(old(self).input(), old(self).index as int), r),
            r is Ok ==> final(self).index > old(self).index,
    {
        broadcast use group_tree_views;

        proof {
            reveal(create_sink);
        }
        self.expect_keyword(Keyword::SINK)?;
        let if_not_exists = self.parse_if_not_exists()?;
        let name = self.parse_item_name()?;
        let in_cluster = self.parse_optional_in_cluster()?;
        self.expect_keyword(Keyword::FROM)?;
        let from = self.parse_raw_name()?;
        self.expect_keyword(Keyword::INTO)?;
        let connection = self.parse_create_sink_connection()?;
        let format = if self.parse_keyword(Keyword::FORMAT) {
            self.parse_format()?
        } else {
            Tree::Absent
        };
        let envelope = if self.parse_keyword(Keyword::ENVELOPE) {
            self.parse_envelope()?
        } else {
            Tree::Absent
        };
        let with_options = if self.parse_keyword(Keyword::WITH) {
            self.expect_token(&Token::LParen)?;
            let os = self.parse_create_sink_option_list(trees0())?;
            self.expect_token(&Token::RParen)?;
            list(os)
        } else {
            list(trees0())
        };
        Ok(node(Kind::CreateSink, trees8(name, in_cluster, from, connection, format, envelope, Tree::Flag(if_not_exists), with_options)))
    }
}

/// What [`Parser::parse_create_sink_option_name`] yields from the token at `i` on.
#[verifier::opaque]
pub open spec fn create_sink_option_name(p: Input, i: int) -> Out<TreeView>
{
    match one_keyword(p, i, seq![Keyword::SIZE, Keyword::SNAPSHOT]) { Failed(e, i) => Failed(e, i), Got(k, i) => {
    if k == Keyword::SIZE {
        Got(TreeView::Node(Kind::Size, Seq::<TreeView>::empty()), i)
    } else {
        Got(TreeView::Node(Kind::Snapshot, Seq::<TreeView>::empty()), i)
    }
    }}
}

impl Parser {
    /// Parse the name of a CREATE SINK optional parameter.
    pub fn parse_create_sink_option_name(&mut self) -> (r: Result<Tree, Failure>)
        requires
            old(self).ready(),
        ensures
            final(self).follows(*old(self), create_sink_option_name(old(self).input(), old(self).index as int), r),
            r is Ok ==> final(self).index > old(self).index,
            r matches Err(e) ==> !(e@ is Unhandled),
    {
        broadcast use group_tree_views;

        proof {
            reveal(create_sink_option_name);
        }
        let choices: [Keyword; 2] = [Keyword::SIZE, Keyword::SNAPSHOT];
        assert(choices@ =~= seq![Keyword::SIZE, Keyword::SNAPSHOT]);
        let k = self.expect_one_of_keywords(&choices)?;
        if k == Keyword::SIZE {
            Ok(node(Kind::Size, trees0()))
        } else {
            Ok(node(Kind::Snapshot, trees0()))
        }
    }
}

/// What [`Parser::parse_create_sink_option_name_list`] yields from the token at `i` on.
#[verifier::opaque]
pub open spec fn create_sink_option_name_list(p: Input, i: int, items: Seq<TreeView>) -> Out<Seq<TreeView>>
    decreases p.toks.len() - i, 0int,
{
    match past(p, i, create_sink_option_name(p, i)) { Failed(e, i) => Failed(e, i), Got(item, i) => {
    if at_token(p, i, TokenView::Comma) {
        let i = i + 1;
        create_sink_option_name_list(p, i, items.push(item))
    } else {
        Got(items.push(item), i)
    }
    }}
}

impl Parser {
    /// Parses one or more `create_sink_option_name`, separated by commas, after those in `items`.
    pub fn parse_create_sink_option_name_list(&mut self, mut items: Trees) -> (r: Result<Trees, Failure>)
        requires
            old(self).ready(),
        ensures
            final(self).follows(*old(self), create_sink_option_name_list(old(self).input(), old(self).index as int, items@), r),
            r is Ok ==> final(self).index > old(self).index,
            r matches Ok(all) ==> all@.len() > items@.len(),
            r matches Err(e) ==> !(e@ is Unhandled),
        decreases old(self).tokens.len() - old(self).index, 0int,
    {
        broadcast use group_tree_views;

        proof {
            reveal(create_sink_option_name_list);
        }
        let ghost before = *self;
        let ghost given = items@.len();
        let ghost goal = create_sink_option_name_list(self.input(), self.index as int, items@);
        #[verifier::loop_isolation(false)]
        loop
            invariant
                self.ready(),
                self.input() == before.input(),
                self.tokens.len() == before.tokens.len(),
                before.index <= self.index,
                before == *old(self),
                given <= items@.len(),
                create_sink_option_name_list(self.input(), self.index as int, items@) == goal,
            decreases self.tokens.len() - self.index,
        {
            proof {
                reveal(create_sink_option_name_list);
            }
            let item = self.parse_create_sink_option_name()?;
            if self.consume_token(&Token::Comma) {
                items = items.with(item);
                continue;
            } else {
                return Ok(items.with(item));
            }
        }
    }
}

/// What [`Parser::parse_create_sink_option`] yields from the token at `i` on.
#[verifier::opaque]
pub open spec fn create_sink_option(p: Input, i: int) -> Out<TreeView>
{
    match create_sink_option_name(p, i) { Failed(e, i) => Failed(e, i), Got(name, i) => {
    match optional_option_value(p, i) { Failed(e, i) => Failed(e, i), Got(v, i) => {
    Got(TreeView::Node(Kind::CreateSinkOption, seq![name, v]), i)
    }}
    }}
}

impl Parser {
    /// Parse a NAME = VALUE parameter for CREATE SINK.
    pub fn parse_create_sink_option(&mut self) -> (r: Result<Tree, Failure>)
        requires
            old(self).ready(),
        ensures
            final(self).follows(*old(self), create_sink_option(old(self).input(), old(self).index as int), r),
            r is Ok ==> final(self).index > old(self).index,
            r matches Err(e) ==> !(e@ is Unhandled),
    {
        broadcast use group_tree_views;

        proof {
            reveal(create_sink_option);
        }
        let name = self.parse_create_sink_option_name()?;
        let v = self.parse_optional_option_value()?;
        Ok(node(Kind::CreateSinkOption, trees2(name, v)))
    }
}

/// What [`Parser::parse_create_sink_option_list`] yields from the token at `i` on.
#[verifier::opaque]
pub open spec fn create_sink_option_list(p: Input, i: int, items: Seq<TreeView>) -> Out<Seq<TreeView>>
    decreases p.toks.len() - i, 0int,
{
    match past(p, i, create_sink_option(p, i)) { Failed(e, i) => Failed(e, i), Got(item, i) => {
    if at_token(p, i, TokenView::Comma) {
        let i = i + 1;
        create_sink_option_list(p, i, items.push(item))
    } else {
        Got(items.push(item), i)
    }
    }}
}

impl Parser {
    /// Parses one or more `create_sink_option`, separated by commas, after those in `items`.
    pub fn parse_create_sink_option_list(&mut self, mut items: Trees) -> (r: Result<Trees, Failure>)
        requires
            old(self).ready(),
        ensures
            final(self).follows(*old(self), create_sink_option_list(old(self).input(), old(self).index as int, items@), r),
            r is Ok ==> final(self).index > old(self).index,
            r matches Ok(all) ==> all@.len() > items@.len(),
            r matches Err(e) ==> !(e@ is Unhandled),
        decreases old(self).tokens.len() - old(self).index, 0int,
    {
        broadcast use group_tree_views;

        proof {
            reveal(create_sink_option_list);
        }
        let ghost before = *self;
        let ghost given = items@.len();
        let ghost goal = create_sink_option_list(self.input(), self.index as int, items@);
        #[verifier::loop_isolation(false)]
        loop
            invariant
                self.ready(),
                self.input() == before.input(),
                self.tokens.len() == before.tokens.len(),
                before.index <= self.index,
                before == *old(self),
                given <= items@.len(),
                create_sink_option_list(self.input(), self.index as int, items@) == goal,
            decreases self.tokens.len() - self.index,
        {
            proof {
                reveal(create_sink_option_list);
            }
            let item = self.parse_create_sink_option()?;
            if self.consume_token(&Token::Comma) {
                items = items.with(item);
                continue;
            } else {
                return Ok(items.with(item));
            }
        }
    }
}

/// What [`Parser::parse_create_source_connection`] yields from the token at `i` on.
#[verifier::opaque]
pub open spec fn create_source_connection(p: Input, i: int) -> Out<TreeView>
{
    match one_keyword(p, i, seq![Keyword::KAFKA, Keyword::POSTGRES, Keyword::LOAD, Keyword::TEST]) { Failed(e, i) => Failed(e, i), Got(k, i) => {
    match k {
        Keyword::POSTGRES => {
            match keyword(p, i, Keyword::CONNECTION) { Failed(e, i) => Failed(e, i), Got(_, i) => {
            match raw_name(p, i) { Failed(e, i) => Failed(e, i), Got(connection, i) => {
            match {
                if at_token(p, i, TokenView::LParen) {
                    let i = i + 1;
                    match pg_connection_option_list(p, i, Seq::<TreeView>::empty()) { Failed(e, i) => Failed(e, i), Got(os, i) => {
                    match token(p, i, TokenView::RParen) { Failed(e, i) => Failed(e, i), Got(_, i) => {
                    Got(TreeView::List(os), i)
                    }}
                    }}
                } else {
                    Got(TreeView::List(Seq::<TreeView>::empty()), i)
                }
            } { Failed(e, i) => Failed(e, i), Got(options, i) => {
            Got(TreeView::Node(Kind::PostgresSource, seq![connection, options]), i)
            }}
            }}
            }}
        },
        Keyword::KAFKA => {
            match keyword(p, i, Keyword::CONNECTION) { Failed(e, i) => Failed(e, i), Got(_, i) => {
            match kafka_connection_reference(p, i) { Failed(e, i) => Failed(e, i), Got(connection, i) => {
            match {
                if at_keyword(p, i, Keyword::KEY) && !at_keyword(p, i + 1, Keyword::FORMAT) {
                    match keyword(p, i, Keyword::KEY) { Failed(e, i) => Failed(e, i), Got(_, i) => {
                    parenthesized_column_list(p, i, false)
                    }}
                } else {
                    Got(TreeView::Absent, i)
                }
            } { Failed(e, i) => Failed(e, i), Got(key, i) => {
            Got(TreeView::Node(Kind::KafkaSource, seq![connection, key]), i)
            }}
            }}
            }}
        },
        Keyword::LOAD => {
            match keyword(p, i, Keyword::GENERATOR) { Failed(e, i) => Failed(e, i), Got(_, i) => {
            match one_keyword(p, i, seq![Keyword::COUNTER, Keyword::MARKETING, Keyword::AUCTION, Keyword::TPCH, Keyword::DATUMS]) { Failed(e, i) => Failed(e, i), Got(which, i) => {
            match {
                match which {
                    Keyword::COUNTER => {
                        Got(TreeView::Node(Kind::Counter, Seq::<TreeView>::empty()), i)
                    },
                    Keyword::AUCTION => {
                        Got(TreeView::Node(Kind::Auction, Seq::<TreeView>::empty()), i)
                    },
                    Keyword::TPCH => {
                        Got(TreeView::Node(Kind::Tpch, Seq::<TreeView>::empty()), i)
                    },
                    Keyword::DATUMS => {
                        Got(TreeView::Node(Kind::Datums, Seq::<TreeView>::empty()), i)
                    },
                    _ => {
                        Got(TreeView::Node(Kind::Marketing, Seq::<TreeView>::empty()), i)
                    },
                }
            } { Failed(e, i) => Failed(e, i), Got(generator, i) => {
            match {
                if at_token(p, i, TokenView::LParen) {
                    let i = i + 1;
                    match load_generator_option_list(p, i, Seq::<TreeView>::empty()) { Failed(e, i) => Failed(e, i), Got(os, i) => {
                    match token(p, i, TokenView::RParen) { Failed(e, i) => Failed(e, i), Got(_, i) => {
                    Got(TreeView::List(os), i)
                    }}
                    }}
                } else {
                    Got(TreeView::List(Seq::<TreeView>::empty()), i)
                }
            } { Failed(e, i) => Failed(e, i), Got(options, i) => {
            Got(TreeView::Node(Kind::LoadGeneratorSource, seq![generator, options]), i)
            }}
            }}
            }}
            }}
        },
        _ => {
            match keyword(p, i, Keyword::SCRIPT) { Failed(e, i) => Failed(e, i), Got(_, i) => {
            match literal_string(p, i) { Failed(e, i) => Failed(e, i), Got(s, i) => {
            Got(TreeView::Node(Kind::TestScriptSource, seq![TreeView::Text(s)]), i)
            }}
            }}
        },
    }
    }}
}

impl Parser {
    /// Parse what a source is created from.
    #[verifier::rlimit(60)]
    pub fn parse_create_source_connection(&mut self) -> (r: Result<Tree, Failure>)
        requires
            old(self).ready(),
        ensures
            final(self).follows(*old(self), create_source_connection(old(self).input(), old(self).index as int), r),
            r is Ok ==> final(self).index > old(self).index,
    {
        broadcast use group_tree_views;

        proof {
            reveal(create_source_connection);
        }
        let choices: [Keyword; 4] = [Keyword::KAFKA, Keyword::POSTGRES, Keyword::LOAD, Keyword::TEST];
        assert(choices@ =~= seq![Keyword::KAFKA, Keyword::POSTGRES, Keyword::LOAD, Keyword::TEST]);
        let k = self.expect_one_of_keywords(&choices)?;
        match k {
            Keyword::POSTGRES => {
                self.expect_keyword(Keyword::CONNECTION)?;
                let connection = self.parse_raw_name()?;
                let options = if self.consume_token(&Token::LParen) {
                    let os = self.parse_pg_connection_option_list(trees0())?;
                    self.expect_token(&Token::RParen)?;
                    list(os)
                } else {
                    list(trees0())
                };
                Ok(node(Kind::PostgresSource, trees2(connection, options)))
            },
            Keyword::KAFKA => {
                self.expect_keyword(Keyword::CONNECTION)?;
                let connection = self.parse_kafka_connection_reference()?;
                let key = if self.peek_keyword(Keyword::KEY) && !self.peek_second_is(Keyword::FORMAT) {
                    self.expect_keyword(Keyword::KEY)?;
                    self.parse_parenthesized_column_list(false)?
                } else {
                    Tree::Absent
                };
                Ok(node(Kind::KafkaSource, trees2(connection, key)))
            },
            Keyword::LOAD => {
                self.expect_keyword(Keyword::GENERATOR)?;
                let choices: [Keyword; 5] = [Keyword::COUNTER, Keyword::MARKETING, Keyword::AUCTION, Keyword::TPCH, Keyword::DATUMS];
                assert(choices@ =~= seq![Keyword::COUNTER, Keyword::MARKETING, Keyword::AUCTION, Keyword::TPCH, Keyword::DATUMS]);
                let which = self.expect_one_of_keywords(&choices)?;
                let generator = match which {
                    Keyword::COUNTER => {
                        node(Kind::Counter, trees0())
                    },
                    Keyword::AUCTION => {
                        node(Kind::Auction, trees0())
                    },
                    Keyword::TPCH => {
                        node(Kind::Tpch, trees0())
                    },
                    Keyword::DATUMS => {
                        node(Kind::Datums, trees0())
                    },
                    _ => {
                        node(Kind::Marketing, trees0())
                    },
                };
                let options = if self.consume_token(&Token::LParen) {
                    let os = self.parse_load_generator_option_list(trees0())?;
                    self.expect_token(&Token::RParen)?;
                    list(os)
                } else {
                    list(trees0())
                };
                Ok(node(Kind::LoadGeneratorSource, trees2(generator, options)))
            },
            _ => {
                self.expect_keyword(Keyword::SCRIPT)?;
                let s = self.parse_literal_string()?;
                Ok(node(Kind::TestScriptSource, trees1(Tree::Text(s))))
            },
        }
    }
}

/// What [`Parser::parse_pg_connection_option`] yields from the token at `i` on.
#[verifier::opaque]
pub open spec fn pg_connection_option(p: Input, i: int) -> Out<TreeView>
{
    match one_keyword(p, i, seq![Keyword::DETAILS, Keyword::PUBLICATION, Keyword::TEXT]) { Failed(e, i) => Failed(e, i), Got(k, i) => {
    match k {
        Keyword::DETAILS => {
            match optional_option_value(p, i) { Failed(e, i) => Failed(e, i), Got(v, i) => {
            Got(TreeView::Node(Kind::PgConfigOption, seq![TreeView::Node(Kind::Details, Seq::<TreeView>::empty()), v]), i)
            }}
        },
        Keyword::PUBLICATION => {
            match optional_option_value(p, i) { Failed(e, i) => Failed(e, i), Got(v, i) => {
            Got(TreeView::Node(Kind::PgConfigOption, seq![TreeView::Node(Kind::Publication, Seq::<TreeView>::empty()), v]), i)
            }}
        },
        _ => {
            match keyword(p, i, Keyword::COLUMNS) { Failed(e, i) => Failed(e, i), Got(_, i) => {
            let i = if at_token(p, i, TokenView::Eq) { i + 1 } else { i };
            match name_sequence(p, i) { Failed(e, i) => Failed(e, i), Got(v, i) => {
            Got(TreeView::Node(Kind::PgConfigOption, seq![TreeView::Node(Kind::TextColumns, Seq::<TreeView>::empty()), v]), i)
            }}
            }}
        },
    }
    }}
}

impl Parser {
    /// Parse an option of a PostgreSQL source.
    pub fn parse_pg_connection_option(&mut self) -> (r: Result<Tree, Failure>)
        requires
            old(self).ready(),
        ensures
            final(self).follows(*old(self), pg_connection_option(old(self).input(), old(self).index as int), r),
            r is Ok ==> final(self).index > old(self).index,
            r matches Err(e) ==> !(e@ is Unhandled),
    {
        broadcast use group_tree_views;

        proof {
            reveal(pg_connection_option);
        }
        let choices: [Keyword; 3] = [Keyword::DETAILS, Keyword::PUBLICATION, Keyword::TEXT];
        assert(choices@ =~= seq![Keyword::DETAILS, Keyword::PUBLICATION, Keyword::TEXT]);
        let k = self.expect_one_of_keywords(&choices)?;
        match k {
            Keyword::DETAILS => {
                let v = self.parse_optional_option_value()?;
                Ok(node(Kind::PgConfigOption, trees2(node(Kind::Details, trees0()), v)))
            },
            Keyword::PUBLICATION => {
                let v = self.parse_optional_option_value()?;
                Ok(node(Kind::PgConfigOption, trees2(node(Kind::Publication, trees0()), v)))
            },
            _ => {
                self.expect_keyword(Keyword::COLUMNS)?;
                let _ = self.consume_token(&Token::Eq);
                let v = self.parse_name_sequence()?;
                Ok(node(Kind::PgConfigOption, trees2(node(Kind::TextColumns, trees0()), v)))
            },
        }
    }
}

/// What [`Parser::parse_pg_connection_option_list`] yields from the token at `i` on.
#[verifier::opaque]
pub open spec fn pg_connection_option_list(p: Input, i: int, items: Seq<TreeView>) -> Out<Seq<TreeView>>
    decreases p.toks.len() - i, 0int,
{
    match past(p, i, pg_connection_option(p, i)) { Failed(e, i) => Failed(e, i), Got(item, i) => {
    if at_token(p, i, TokenView::Comma) {
        let i = i + 1;
        pg_connection_option_list(p, i, items.push(item))
    } else {
        Got(items.push(item), i)
    }
    }}
}

impl Parser {
    /// Parses one or more `pg_connection_option`, separated by commas, after those in `items`.
    pub fn parse_pg_connection_option_list(&mut self, mut items: Trees) -> (r: Result<Trees, Failure>)
        requires
            old(self).ready(),
        ensures
            final(self).follows(*old(self), pg_connection_option_list(old(self).input(), old(self).index as int, items@), r),
            r is Ok ==> final(self).index > old(self).index,
            r matches Ok(all) ==> all@.len() > items@.len(),
            r matches Err(e) ==> !(e@ is Unhandled),
        decreases old(self).tokens.len() - old(self).index, 0int,
    {
        broadcast use group_tree_views;

        proof {
            reveal(pg_connection_option_list);
        }
        let ghost before = *self;
        let ghost given = items@.len();
        let ghost goal = pg_connection_option_list(self.input(), self.index as int, items@);
        #[verifier::loop_isolation(false)]
        loop
            invariant
                self.ready(),
                self.input() == before.input(),
                self.tokens.len() == before.tokens.len(),
                before.index <= self.index,
                before == *old(self),
                given <= items@.len(),
                pg_connection_option_list(self.input(), self.index as int, items@) == goal,
            decreases self.tokens.len() - self.index,
        {
            proof {
                reveal(pg_connection_option_list);
            }
            let item = self.parse_pg_connection_option()?;
            if self.consume_token(&Token::Comma) {
                items = items.with(item);
                continue;
            } else {
                return Ok(items.with(item));
            }
        }
    }
}

/// What [`Parser::parse_load_generator_option`] yields from the token at `i` on.
#[verifier::opaque]
pub open spec fn load_generator_option(p: Input, i: int) -> Out<TreeView>
{
    match one_keyword(p, i, seq![Keyword::SCALE, Keyword::TICK, Keyword::MAX]) { Failed(e, i) => Failed(e, i), Got(k, i) => {
    match {
        match k {
            Keyword::SCALE => {
                match keyword(p, i, Keyword::FACTOR) { Failed(e, i) => Failed(e, i), Got(_, i) => {
                Got(TreeView::Node(Kind::ScaleFactor, Seq::<TreeView>::empty()), i)
                }}
            },
            Keyword::TICK => {
                match keyword(p, i, Keyword::INTERVAL) { Failed(e, i) => Failed(e, i), Got(_, i) => {
                Got(TreeView::Node(Kind::TickInterval, Seq::<TreeView>::empty()), i)
                }}
            },
            _ => {
                match keyword(p, i, Keyword::CARDINALITY) { Failed(e, i) => Failed(e, i), Got(_, i) => {
                Got(TreeView::Node(Kind::MaxCardinality, Seq::<TreeView>::empty()), i)
                }}
            },
        }
    } { Failed(e, i) => Failed(e, i), Got(name, i) => {
    let i = if at_token(p, i, TokenView::Eq) { i + 1 } else { i };
    match optional_option_value(p, i) { Failed(e, i) => Failed(e, i), Got(v, i) => {
    Got(TreeView::Node(Kind::LoadGeneratorOption, seq![name, v]), i)
    }}
    }}
    }}
}

impl Parser {
    /// Parse an option of a load generator.
    pub fn parse_load_generator_option(&mut self) -> (r: Result<Tree, Failure>)
        requires
            old(self).ready(),
        ensures
            final(self).follows(*old(self), load_generator_option(old(self).input(), old(self).index as int), r),
            r is Ok ==> final(self).index > old(self).index,
            r matches Err(e) ==> !(e@ is Unhandled),
    {
        broadcast use group_tree_views;

        proof {
            reveal(load_generator_option);
        }
        let choices: [Keyword; 3] = [Keyword::SCALE, Keyword::TICK, Keyword::MAX];
        assert(choices@ =~= seq![Keyword::SCALE, Keyword::TICK, Keyword::MAX]);
        let k = self.expect_one_of_keywords(&choices)?;
        let name = match k {
            Keyword::SCALE => {
                self.expect_keyword(Keyword::FACTOR)?;
                node(Kind::ScaleFactor, trees0())
            },
            Keyword::TICK => {
                self.expect_keyword(Keyword::INTERVAL)?;
                node(Kind::TickInterval, trees0())
            },
            _ => {
                self.expect_keyword(Keyword::CARDINALITY)?;
                node(Kind::MaxCardinality, trees0())
            },
        };
        let _ = self.consume_token(&Token::Eq);
        let v = self.parse_optional_option_value()?;
        Ok(node(Kind::LoadGeneratorOption, trees2(name, v)))
    }
}

/// What [`Parser::parse_load_generator_option_list`] yields from the token at `i` on.
#[verifier::opaque]
pub open spec fn load_generator_option_list(p: Input, i: int, items: Seq<TreeView>) -> Out<Seq<TreeView>>
    decreases p.toks.len() - i, 0int,
{
    match past(p, i, load_generator_option(p, i)) { Failed(e, i) => Failed(e, i), Got(item, i) => {
    if at_token(p, i, TokenView::Comma) {
        let i = i + 1;
        load_generator_option_list(p, i, items.push(item))
    } else {
        Got(items.push(item), i)
    }
    }}
}

impl Parser {
    /// Parses one or more `load_generator_option`, separated by commas, after those in `items`.
    pub fn parse_load_generator_option_list(&mut self, mut items: Trees) -> (r: Result<Trees, Failure>)
        requires
            old(self).ready(),
        ensures
            final(self).follows(*old(self), load_generator_option_list(old(self).input(), old(self).index as int, items@), r),
            r is Ok ==> final(self).index > old(self).index,
            r matches Ok(all) ==> all@.len() > items@.len(),
            r matches Err(e) ==> !(e@ is Unhandled),
        decreases old(self).tokens.len() - old(self).index, 0int,
    {
        broadcast use group_tree_views;

        proof {
            reveal(load_generator_option_list);
        }
        let ghost before = *self;
        let ghost given = items@.len();
        let ghost goal = load_generator_option_list(self.input(), self.index as int, items@);
        #[verifier::loop_isolation(false)]
        loop
            invariant
                self.ready(),
                self.input() == before.input(),
                self.tokens.len() == before.tokens.len(),
                before.index <= self.index,
                before == *old(self),
                given <= items@.len(),
                load_generator_option_list(self.input(), self.index as int, items@) == goal,
            decreases self.tokens.len() - self.index,
        {
            proof {
                reveal(load_generator_option_list);
            }
            let item = self.parse_load_generator_option()?;
            if self.consume_token(&Token::Comma) {
                items = items.with(item);
                continue;
            } else {
                return Ok(items.with(item));
            }
        }
    }
}

/// What [`Parser::parse_create_sink_connection`] yields from the token at `i` on.
#[verifier::opaque]
pub open spec fn create_sink_connection(p: Input, i: int) -> Out<TreeView>
{
    match keyword(p, i, Keyword::KAFKA) { Failed(e, i) => Failed(e, i), Got(_, i) => {
    match keyword(p, i, Keyword::CONNECTION) { Failed(e, i) => Failed(e, i), Got(_, i) => {
    match kafka_connection_reference(p, i) { Failed(e, i) => Failed(e, i), Got(connection, i) => {
    match {
        if at_keyword(p, i, Keyword::KEY) && !at_keyword(p, i + 1, Keyword::FORMAT) {
            match keyword(p, i, Keyword::KEY) { Failed(e, i) => Failed(e, i), Got(_, i) => {
            match parenthesized_column_list(p, i, false) { Failed(e, i) => Failed(e, i), Got(key_columns, i) => {
            let not_enforced = at_keywords2(p, i, Keyword::NOT, Keyword::ENFORCED);
            let i = if not_enforced { i + 2 } else { i };
            Got(TreeView::Node(Kind::KafkaSinkKey, seq![key_columns, TreeView::Flag(not_enforced)]), i)
            }}
            }}
        } else {
            Got(TreeView::Absent, i)
        }
    } { Failed(e, i) => Failed(e, i), Got(key, i) => {
    Got(TreeView::Node(Kind::KafkaSink, seq![connection, key]), i)
    }}
    }}
    }}
    }}
}

impl Parser {
    /// Parse where a sink writes to.
    pub fn parse_create_sink_connection(&mut self) -> (r: Result<Tree, Failure>)
        requires
            old(self).ready(),
        ensures
            final(self).follows(*old(self), create_sink_connection(old(self).input(), old(self).index as int), r),
            r is Ok ==> final(self).index > old(self).index,
    {
        broadcast use group_tree_views;

        proof {
            reveal(create_sink_connection);
        }
        self.expect_keyword(Keyword::KAFKA)?;
        self.expect_keyword(Keyword::CONNECTION)?;
        let connection = self.parse_kafka_connection_reference()?;
        let key = if self.peek_keyword(Keyword::KEY) && !self.peek_second_is(Keyword::FORMAT) {
            self.expect_keyword(Keyword::KEY)?;
            let key_columns = self.parse_parenthesized_column_list(false)?;
            let not_enforced = self.parse_keywords2(Keyword::NOT, Keyword::ENFORCED);
            node(Kind::KafkaSinkKey, trees2(key_columns, Tree::Flag(not_enforced)))
        } else {
            Tree::Absent
        };
        Ok(node(Kind::KafkaSink, trees2(connection, key)))
    }
}

/// What [`Parser::parse_or_replace`] yields from the token at `i` on.
#[verifier::opaque]
pub open spec fn or_replace(p: Input, i: int) -> Out<bool>
{
    if at_keyword(p, i, Keyword::OR) {
        let i = i + 1;
        match keyword(p, i, Keyword::REPLACE) { Failed(e, i) => Failed(e, i), Got(_, i) => {
        Got(true, i)
        }}
    } else {
        Got(false, i)
    }
}

impl Parser {
    /// Parse `OR REPLACE`, if it is there.
    pub fn parse_or_replace(&mut self) -> (r: Result<bool, Failure>)
        requires
            old(self).ready(),
        ensures
            final(self).follows(*old(self), or_replace(old(self).input(), old(self).index as int), r),
            r matches Err(e) ==> !(e@ is Unhandled),
    {
        broadcast use group_tree_views;

        proof {
            reveal(or_replace);
        }
        if self.parse_keyword(Keyword::OR) {
            self.expect_keyword(Keyword::REPLACE)?;
            Ok(true)
        } else {
            Ok(false)
        }
    }
}

/// What [`Parser::parse_if_exists_behavior`] yields from the token at `i` on.
#[verifier::opaque]
pub open spec fn if_exists_behavior(p: Input, i: int, replace: bool) -> Out<TreeView>
{
    if replace {
        Got(TreeView::Node(Kind::ReplaceExisting, Seq::<TreeView>::empty()), i)
    } else {
        match if_not_exists(p, i) { Failed(e, i) => Failed(e, i), Got(skip_existing, i) => {
        if skip_existing {
            Got(TreeView::Node(Kind::SkipExisting, Seq::<TreeView>::empty()), i)
        } else {
            Got(TreeView::Node(Kind::ErrorIfExists, Seq::<TreeView>::empty()), i)
        }
        }}
    }
}

impl Parser {
    /// Parse `IF NOT EXISTS`, if it is there and nothing is replaced; tell what is to be
    /// done where the view exists.
    pub fn parse_if_exists_behavior(&mut self, replace: bool) -> (r: Result<Tree, Failure>)
        requires
            old(self).ready(),
        ensures
            final(self).follows(*old(self), if_exists_behavior(old(self).input(), old(self).index as int, replace), r),
            r matches Err(e) ==> !(e@ is Unhandled),
    {
        broadcast use group_tree_views;

        proof {
            reveal(if_exists_behavior);
        }
        if replace {
            Ok(node(Kind::ReplaceExisting, trees0()))
        } else {
            let skip_existing = self.parse_if_not_exists()?;
            if skip_existing {
                Ok(node(Kind::SkipExisting, trees0()))
            } else {
                Ok(node(Kind::ErrorIfExists, trees0()))
            }
        }
    }
}

/// What [`Parser::parse_temporary`] yields from the token at `i` on.
#[verifier::opaque]
pub open spec fn temporary(p: Input, i: int) -> Out<bool>
{
    let long = at_keyword(p, i, Keyword::TEMPORARY);
    let i = if long { i + 1 } else { i };
    let short = at_keyword(p, i, Keyword::TEMP);
    let i = if short { i + 1 } else { i };
    Got(long || short, i)
}

impl Parser {
    /// Parse `TEMPORARY` or `TEMP`, if it is there.
    pub fn parse_temporary(&mut self) -> (r: Result<bool, Failure>)
        requires
            old(self).ready(),
        ensures
            final(self).follows(*old(self), temporary(old(self).input(), old(self).index as int), r),
            r matches Err(e) ==> !(e@ is Unhandled),
    {
        broadcast use group_tree_views;

        proof {
            reveal(temporary);
        }
        let long = self.parse_keyword(Keyword::TEMPORARY);
        let short = self.parse_keyword(Keyword::TEMP);
        Ok(long || short)
    }
}

/// What [`Parser::parse_create_view`] yields from the token at `i` on.
#[verifier::opaque]
pub open spec fn create_view(p: Input, i: int) -> Out<TreeView>
{
    match or_replace(p, i) { Failed(e, i) => Failed(e, i), Got(replace, i) => {
    match temporary(p, i) { Failed(e, i) => Failed(e, i), Got(temporary, i) => {
    match keyword(p, i, Keyword::VIEW) { Failed(e, i) => Failed(e, i), Got(_, i) => {
    match if_exists_behavior(p, i, replace) { Failed(e, i) => Failed(e, i), Got(if_exists, i) => {
    match view_definition(p, i) { Failed(e, i) => Failed(e, i), Got(definition, i) => {
    Got(TreeView::Node(Kind::CreateView, seq![if_exists, TreeView::Flag(temporary), definition]), i)
    }}
    }}
    }}
    }}
    }}
}

impl Parser {
    /// Parse a `CREATE VIEW` statement.
    pub fn parse_create_view(&mut self) -> (r: Result<Tree, Failure>)
        requires
            old(self).ready(),
        ensures
            final(self).follows(*old(self), create_view(old(self).input(), old(self).index as int), r),
            r is Ok ==> final(self).index > old(self).index,
            r matches Err(e) ==> !(e@ is Unhandled),
    {
        broadcast use group_tree_views;

        proof {
            reveal(create_view);
        }
        let replace = self.parse_or_replace()?;
        let temporary = self.parse_temporary()?;
        self.expect_keyword(Keyword::VIEW)?;
        let if_exists = self.parse_if_exists_behavior(replace)?;
        let definition = self.parse_view_definition()?;
        Ok(node(Kind::CreateView, trees3(if_exists, Tree::Flag(temporary), definition)))
    }
}

/// What [`Parser::parse_view_definition`] yields from the token at `i` on.
#[verifier::opaque]
pub open spec fn view_definition(p: Input, i: int) -> Out<TreeView>
{
    match item_name(p, i) { Failed(e, i) => Failed(e, i), Got(name, i) => {
    match parenthesized_column_list(p, i, true) { Failed(e, i) => Failed(e, i), Got(columns, i) => {
    match keyword(p, i, Keyword::AS) { Failed(e, i) => Failed(e, i), Got(_, i) => {
    match query(p, i) { Failed(e, i) => Failed(e, i), Got(q, i) => {
    Got(TreeView::Node(Kind::ViewDefinition, seq![name, columns, q]), i)
    }}
    }}
    }}
    }}
}

impl Parser {
    /// Parse a view's name, columns and query.
    pub fn parse_view_definition(&mut self) -> (r: Result<Tree, Failure>)
        requires
            old(self).ready(),
        ensures
            final(self).follows(*old(self), view_definition(old(self).input(), old(self).index as int), r),
            r is Ok ==> final(self).index > old(self).index,
            r matches Err(e) ==> !(e@ is Unhandled),
    {
        broadcast use group_tree_views;

        proof {
            reveal(view_definition);
        }
        let name = self.parse_item_name()?;
        let columns = self.parse_parenthesized_column_list(true)?;
        self.expect_keyword(Keyword::AS)?;
        let q = self.parse_query()?;
        Ok(node(Kind::ViewDefinition, trees3(name, columns, q)))
    }
}

/// What [`Parser::parse_create_materialized_view`] yields from the token at `i` on.
#[verifier::opaque]
pub open spec fn create_materialized_view(p: Input, i: int) -> Out<TreeView>
{
    match or_replace(p, i) { Failed(e, i) => Failed(e, i), Got(replace, i) => {
    match keyword(p, i, Keyword::MATERIALIZED) { Failed(e, i) => Failed(e, i), Got(_, i) => {
    match keyword(p, i, Keyword::VIEW) { Failed(e, i) => Failed(e, i), Got(_, i) => {
    match if_exists_behavior(p, i, replace) { Failed(e, i) => Failed(e, i), Got(if_exists, i) => {
    match item_name(p, i) { Failed(e, i) => Failed(e, i), Got(name, i) => {
    match parenthesized_column_list(p, i, true) { Failed(e, i) => Failed(e, i), Got(columns, i) => {
    match optional_in_cluster(p, i) { Failed(e, i) => Failed(e, i), Got(in_cluster, i) => {
    match keyword(p, i, Keyword::AS) { Failed(e, i) => Failed(e, i), Got(_, i) => {
    match query(p, i) { Failed(e, i) => Failed(e, i), Got(q, i) => {
    Got(TreeView::Node(Kind::CreateMaterializedView, seq![if_exists, name, columns, in_cluster, q]), i)
    }}
    }}
    }}
    }}
    }}
    }}
    }}}}
    }}
}

impl Parser {
    /// Parse a `CREATE MATERIALIZED VIEW` statement.
    pub fn parse_create_materialized_view(&mut self) -> (r: Result<Tree, Failure>)
        requires
            old(self).ready(),
        ensures
            final(self).follows(*old(self), create_materialized_view(old(self).input(), old(self).index as int), r),
            r is Ok ==> final(self).index > old(self).index,
            r matches Err(e) ==> !(e@ is Unhandled),
    {
        broadcast use group_tree_views;

        proof {
            reveal(create_materialized_view);
        }
        let replace = self.parse_or_replace()?;
        self.expect_keyword(Keyword::MATERIALIZED)?;
        self.expect_keyword(Keyword::VIEW)?;
        let if_exists = self.parse_if_exists_behavior(replace)?;
        let name = self.parse_item_name()?;
        let columns = self.parse_parenthesized_column_list(true)?;
        let in_cluster = self.parse_optional_in_cluster()?;
        self.expect_keyword(Keyword::AS)?;
        let q = self.parse_query()?;
        Ok(node(Kind::CreateMaterializedView, trees5(if_exists, name, columns, in_cluster, q)))
    }
}

/// What [`Parser::parse_create_index`] yields from the token at `i` on.
#[verifier::opaque]
pub open spec fn create_index(p: Input, i: int) -> Out<TreeView>
{
    let default_index = at_keyword(p, i, Keyword::DEFAULT);
    let i = if default_index { i + 1 } else { i };
    match keyword(p, i, Keyword::INDEX) { Failed(e, i) => Failed(e, i), Got(_, i) => {
    match if_not_exists(p, i) { Failed(e, i) => Failed(e, i), Got(if_not_exists, i) => {
    match {
        if at_keyword(p, i, Keyword::IN) || at_keyword(p, i, Keyword::ON) {
            if if_not_exists && !default_index {
                Failed(expected_at(p, i, "index name"@), i)
            } else {
                Got(TreeView::Absent, i)
            }
        } else {
            identifier(p, i)
        }
    } { Failed(e, i) => Failed(e, i), Got(name, i) => {
    match optional_in_cluster(p, i) { Failed(e, i) => Failed(e, i), Got(in_cluster, i) => {
    match keyword(p, i, Keyword::ON) { Failed(e, i) => Failed(e, i), Got(_, i) => {
    match raw_name(p, i) { Failed(e, i) => Failed(e, i), Got(on_name, i) => {
    match using_arrangement(p, i) { Failed(e, i) => Failed(e, i), Got(_, i) => {
    match {
        if default_index {
            Got(TreeView::Absent, i)
        } else {
            match token(p, i, TokenView::LParen) { Failed(e, i) => Failed(e, i), Got(_, i) => {
            if at_token(p, i, TokenView::RParen) {
                let i = i + 1;
                Got(TreeView::List(Seq::<TreeView>::empty()), i)
            } else {
                match order_by_expr_list(p, i, Seq::<TreeView>::empty()) { Failed(e, i) => Failed(e, i), Got(parts, i) => {
                match token(p, i, TokenView::RParen) { Failed(e, i) => Failed(e, i), Got(_, i) => {
                Got(TreeView::List(first_children(parts)), i)
                }}
                }}
            }
            }}
        }
    } { Failed(e, i) => Failed(e, i), Got(key_parts, i) => {
    match {
        if at_keyword(p, i, Keyword::WITH) {
            let i = i + 1;
            match token(p, i, TokenView::LParen) { Failed(e, i) => Failed(e, i), Got(_, i) => {
            match {
                if at_token(p, i, TokenView::RParen) {
                    Got(TreeView::List(Seq::<TreeView>::empty()), i)
                } else {
                    match index_option_list(p, i, Seq::<TreeView>::empty()) { Failed(e, i) => Failed(e, i), Got(os, i) => {
                    Got(TreeView::List(os), i)
                    }}
                }
            } { Failed(e, i) => Failed(e, i), Got(os, i) => {
            match token(p, i, TokenView::RParen) { Failed(e, i) => Failed(e, i), Got(_, i) => {
            Got(os, i)
            }}
            }}
            }}
        } else {
            Got(TreeView::List(Seq::<TreeView>::empty()), i)
        }
    } { Failed(e, i) => Failed(e, i), Got(with_options, i) => {
    Got(TreeView::Node(Kind::CreateIndex, seq![name, in_cluster, on_name, key_parts, with_options, TreeView::Flag(if_not_exists)]), i)
    }}
    }}
    }}
    }}
    }}
    }}
    }}
    }}
    }}
}

impl Parser {
    /// Parse a `CREATE INDEX` statement.
    #[verifier::rlimit(60)]
    pub fn parse_create_index(&mut self) -> (r: Result<Tree, Failure>)
        requires
            old(self).ready(),
        ensures
            final(self).follows(*old(self), create_index(old(self).input(), old(self).index as int), r),
            r is Ok ==> final(self).index > old(self).index,
            r matches Err(e) ==> !(e@ is Unhandled),
    {
        broadcast use group_tree_views;

        proof {
            reveal(create_index);
        }
        let default_index = self.parse_keyword(Keyword::DEFAULT);
        self.expect_keyword(Keyword::INDEX)?;
        let if_not_exists = self.parse_if_not_exists()?;
        let name = if self.peek_keyword(Keyword::IN) || self.peek_keyword(Keyword::ON) {
            if if_not_exists && !default_index {
                return Err(self.expected_here("index name"));
            } else {
                Tree::Absent
            }
        } else {
            self.parse_identifier()?
        };
        let in_cluster = self.parse_optional_in_cluster()?;
        self.expect_keyword(Keyword::ON)?;
        let on_name = self.parse_raw_name()?;
        self.parse_using_arrangement()?;
        let key_parts = if default_index {
            Tree::Absent
        } else {
            self.expect_token(&Token::LParen)?;
            if self.consume_token(&Token::RParen) {
                list(trees0())
            } else {
                let parts = self.parse_order_by_expr_list(trees0())?;
                self.expect_token(&Token::RParen)?;
                list(parts.into_first_children())
            }
        };
        let with_options = if self.parse_keyword(Keyword::WITH) {
            self.expect_token(&Token::LParen)?;
            let os = if self.peek_is(&Token::RParen) {
                list(trees0())
            } else {
                let os = self.parse_index_option_list(trees0())?;
                list(os)
            };
            self.expect_token(&Token::RParen)?;
            os
        } else {
            list(trees0())
        };
        Ok(node(Kind::CreateIndex, trees6(name, in_cluster, on_name, key_parts, with_options, Tree::Flag(if_not_exists))))
    }
}

/// What [`Parser::parse_using_arrangement`] yields from the token at `i` on.
#[verifier::opaque]
pub open spec fn using_arrangement(p: Input, i: int) -> Out<()>
{
    if at_keyword(p, i, Keyword::USING) {
        let i = i + 1;
        match keyword(p, i, Keyword::ARRANGEMENT) { Failed(e, i) => Failed(e, i), Got(_, i) => {
        Got((), i)
        }}
    } else {
        Got((), i)
    }
}

impl Parser {
    /// Parse `USING ARRANGEMENT`, if it is there. Arrangements are the only index
    /// type.
    pub fn parse_using_arrangement(&mut self) -> (r: Result<(), Failure>)
        requires
            old(self).ready(),
        ensures
            final(self).follows(*old(self), using_arrangement(old(self).input(), old(self).index as int), r),
            r matches Err(e) ==> !(e@ is Unhandled),
    {
        broadcast use group_tree_views;

        proof {
            reveal(using_arrangement);
        }
        if self.parse_keyword(Keyword::USING) {
            self.expect_keyword(Keyword::ARRANGEMENT)?;
            Ok(())
        } else {
            Ok(())
        }
    }
}

/// What [`Parser::parse_index_option_name`] yields from the token at `i` on.
#[verifier::opaque]
pub open spec fn index_option_name(p: Input, i: int) -> Out<TreeView>
{
    match keyword(p, i, Keyword::LOGICAL) { Failed(e, i) => Failed(e, i), Got(_, i) => {
    match keyword(p, i, Keyword::COMPACTION) { Failed(e, i) => Failed(e, i), Got(_, i) => {
    match keyword(p, i, Keyword::WINDOW) { Failed(e, i) => Failed(e, i), Got(_, i) => {
    Got(TreeView::Node(Kind::LogicalCompactionWindow, Seq::<TreeView>::empty()), i)
    }}}}}}
}

impl Parser {
    /// Parse the name of an index option.
    pub fn parse_index_option_name(&mut self) -> (r: Result<Tree, Failure>)
        requires
            old(self).ready(),
        ensures
            final(self).follows(*old(self), index_option_name(old(self).input(), old(self).index as int), r),
            r is Ok ==> final(self).index > old(self).index,
            r matches Err(e) ==> !(e@ is Unhandled),
    {
        broadcast use group_tree_views;

        proof {
            reveal(index_option_name);
        }
        self.expect_keyword(Keyword::LOGICAL)?;
        self.expect_keyword(Keyword::COMPACTION)?;
        self.expect_keyword(Keyword::WINDOW)?;
        Ok(node(Kind::LogicalCompactionWindow, trees0()))
    }
}

/// What [`Parser::parse_index_option_name_list`] yields from the token at `i` on.
#[verifier::opaque]
pub open spec fn index_option_name_list(p: Input, i: int, items: Seq<TreeView>) -> Out<Seq<TreeView>>
    decreases p.toks.len() - i, 0int,
{
    match past(p, i, index_option_name(p, i)) { Failed(e, i) => Failed(e, i), Got(item, i) => {
    if at_token(p, i, TokenView::Comma) {
        let i = i + 1;
        index_option_name_list(p, i, items.push(item))
    } else {
        Got(items.push(item), i)
    }
    }}
}

impl Parser {
    /// Parses one or more `index_option_name`, separated by commas, after those in `items`.
    pub fn parse_index_option_name_list(&mut self, mut items: Trees) -> (r: Result<Trees, Failure>)
        requires
            old(self).ready(),
        ensures
            final(self).follows(*old(self), index_option_name_list(old(self).input(), old(self).index as int, items@), r),
            r is Ok ==> final(self).index > old(self).index,
            r matches Ok(all) ==> all@.len() > items@.len(),
            r matches Err(e) ==> !(e@ is Unhandled),
        decreases old(self).tokens.len() - old(self).index, 0int,
    {
        broadcast use group_tree_views;

        proof {
            reveal(index_option_name_list);
        }
        let ghost before = *self;
        let ghost given = items@.len();
        let ghost goal = index_option_name_list(self.input(), self.index as int, items@);
        #[verifier::loop_isolation(false)]
        loop
            invariant
                self.ready(),
                self.input() == before.input(),
                self.tokens.len() == before.tokens.len(),
                before.index <= self.index,
                before == *old(self),
                given <= items@.len(),
                index_option_name_list(self.input(), self.index as int, items@) == goal,
            decreases self.tokens.len() - self.index,
        {
            proof {
                reveal(index_option_name_list);
            }
            let item = self.parse_index_option_name()?;
            if self.consume_token(&Token::Comma) {
                items = items.with(item);
                continue;
            } else {
                return Ok(items.with(item));
            }
        }
    }
}

/// What [`Parser::parse_index_option`] yields from the token at `i` on.
#[verifier::opaque]
pub open spec fn index_option(p: Input, i: int) -> Out<TreeView>
{
    match keyword(p, i, Keyword::LOGICAL) { Failed(e, i) => Failed(e, i), Got(_, i) => {
    match keyword(p, i, Keyword::COMPACTION) { Failed(e, i) => Failed(e, i), Got(_, i) => {
    match keyword(p, i, Keyword::WINDOW) { Failed(e, i) => Failed(e, i), Got(_, i) => {
    match optional_option_value(p, i) { Failed(e, i) => Failed(e, i), Got(v, i) => {
    Got(TreeView::Node(Kind::IndexOption, seq![TreeView::Node(Kind::LogicalCompactionWindow, Seq::<TreeView>::empty()), v]), i)
    }}
    }}}}}}
}

impl Parser {
    /// Parse an index option.
    pub fn parse_index_option(&mut self) -> (r: Result<Tree, Failure>)
        requires
            old(self).ready(),
        ensures
            final(self).follows(*old(self), index_option(old(self).input(), old(self).index as int), r),
            r is Ok ==> final(self).index > old(self).index,
            r matches Err(e) ==> !(e@ is Unhandled),
    {
        broadcast use group_tree_views;

        proof {
            reveal(index_option);
        }
        self.expect_keyword(Keyword::LOGICAL)?;
        self.expect_keyword(Keyword::COMPACTION)?;
        self.expect_keyword(Keyword::WINDOW)?;
        let v = self.parse_optional_option_value()?;
        Ok(node(Kind::IndexOption, trees2(node(Kind::LogicalCompactionWindow, trees0()), v)))
    }
}

/// What [`Parser::parse_index_option_list`] yields from the token at `i` on.
#[verifier::opaque]
pub open spec fn index_option_list(p: Input, i: int, items: Seq<TreeView>) -> Out<Seq<TreeView>>
    decreases p.toks.len() - i, 0int,
{
    match past(p, i, index_option(p, i)) { Failed(e, i) => Failed(e, i), Got(item, i) => {
    if at_token(p, i, TokenView::Comma) {
        let i = i + 1;
        index_option_list(p, i, items.push(item))
    } else {
        Got(items.push(item), i)
    }
    }}
}

impl Parser {
    /// Parses one or more `index_option`, separated by commas, after those in `items`.
    pub fn parse_index_option_list(&mut self, mut items: Trees) -> (r: Result<Trees, Failure>)
        requires
            old(self).ready(),
        ensures
            final(self).follows(*old(self), index_option_list(old(self).input(), old(self).index as int, items@), r),
            r is Ok ==> final(self).index > old(self).index,
            r matches Ok(all) ==> all@.len() > items@.len(),
            r matches Err(e) ==> !(e@ is Unhandled),
        decreases old(self).tokens.len() - old(self).index, 0int,
    {
        broadcast use group_tree_views;

        proof {
            reveal(index_option_list);
        }
        let ghost before = *self;
        let ghost given = items@.len();
        let ghost goal = index_option_list(self.input(), self.index as int, items@);
        #[verifier::loop_isolation(false)]
        loop
            invariant
                self.ready(),
                self.input() == before.input(),
                self.tokens.len() == before.tokens.len(),
                before.index <= self.index,
                before == *old(self),
                given <= items@.len(),
                index_option_list(self.input(), self.index as int, items@) == goal,
            decreases self.tokens.len() - self.index,
        {
            proof {
                reveal(index_option_list);
            }
            let item = self.parse_index_option()?;
            if self.consume_token(&Token::Comma) {
                items = items.with(item);
                continue;
            } else {
                return Ok(items.with(item));
            }
        }
    }
}

/// What [`Parser::parse_raw_ident`] yields from the token at `i` on.
#[verifier::opaque]
pub open spec fn raw_ident(p: Input, i: int) -> Out<TreeView>
{
    if at_token(p, i, TokenView::LBracket) {
        let i = i + 1;
        match {
            let found = token_at(p, i);
            let i = i + 1;
            match found {
                Some(TokenView::Ident(s)) => {
                    Got(s, i)
                },
                Some(TokenView::Number(s)) => {
                    Got(s, i)
                },
                _ => {
                    Failed(error_view(position(p, i - 1), no_text() + "expected id"@), i)
                },
            }
        } { Failed(e, i) => Failed(e, i), Got(id, i) => {
        match token(p, i, TokenView::RBracket) { Failed(e, i) => Failed(e, i), Got(_, i) => {
        Got(TreeView::Node(Kind::ResolvedCluster, seq![TreeView::Text(id)]), i)
        }}
        }}
    } else {
        match identifier(p, i) { Failed(e, i) => Failed(e, i), Got(id, i) => {
        Got(TreeView::Node(Kind::UnresolvedCluster, seq![id]), i)
        }}
    }
}

impl Parser {
    /// Parse a cluster's name, or its id in square brackets.
    pub fn parse_raw_ident(&mut self) -> (r: Result<Tree, Failure>)
        requires
            old(self).ready(),
        ensures
            final(self).follows(*old(self), raw_ident(old(self).input(), old(self).index as int), r),
            r is Ok ==> final(self).index > old(self).index,
            r matches Err(e) ==> !(e@ is Unhandled),
    {
        broadcast use group_tree_views;

        proof {
            reveal(raw_ident);
        }
        if self.consume_token(&Token::LBracket) {
            let id = match self.next_token() {
                Some(Token::Ident(s)) => {
                    s
                },
                Some(Token::Number(s)) => {
                    s
                },
                _ => {
                    let pos: usize = self.peek_prev_pos();
                    return Err(error(pos, String::new().concat("expected id")));
                },
            };
            self.expect_token(&Token::RBracket)?;
            Ok(node(Kind::ResolvedCluster, trees1(Tree::Text(id))))
        } else {
            let id = self.parse_identifier()?;
            Ok(node(Kind::UnresolvedCluster, trees1(id)))
        }
    }
}

/// What [`Parser::parse_create_role`] yields from the token at `i` on.
#[verifier::opaque]
pub open spec fn create_role(p: Input, i: int) -> Out<TreeView>
{
    match keyword(p, i, Keyword::ROLE) { Failed(e, i) => Failed(e, i), Got(_, i) => {
    match identifier(p, i) { Failed(e, i) => Failed(e, i), Got(name, i) => {
    let i = if at_keyword(p, i, Keyword::WITH) { i + 1 } else { i };
    match role_attributes(p, i, Seq::<TreeView>::empty()) { Failed(e, i) => Failed(e, i), Got(options, i) => {
    Got(TreeView::Node(Kind::CreateRole, seq![name, TreeView::List(options)]), i)
    }}
    }}
    }}
}

impl Parser {
    /// Parse a `CREATE ROLE` statement.
    pub fn parse_create_role(&mut self) -> (r: Result<Tree, Failure>)
        requires
            old(self).ready(),
        ensures
            final(self).follows(*old(self), create_role(old(self).input(), old(self).index as int), r),
            r is Ok ==> final(self).index > old(self).index,
            r matches Err(e) ==> !(e@ is Unhandled),
    {
        broadcast use group_tree_views;

        proof {
            reveal(create_role);
        }
        self.expect_keyword(Keyword::ROLE)?;
        let name = self.parse_identifier()?;
        let _ = self.parse_keyword(Keyword::WITH);
        let options = self.parse_role_attributes(trees0())?;
        Ok(node(Kind::CreateRole, trees2(name, list(options))))
    }
}

/// What [`Parser::parse_role_attributes`] yields from the token at `i` on.
#[verifier::opaque]
pub open spec fn role_attributes(p: Input, i: int, options: Seq<TreeView>) -> Out<Seq<TreeView>>
    decreases p.toks.len() - i, 0int,
{
    match one_of(p, i, seq![Keyword::SUPERUSER, Keyword::NOSUPERUSER, Keyword::LOGIN, Keyword::NOLOGIN, Keyword::INHERIT, Keyword::NOINHERIT, Keyword::CREATECLUSTER, Keyword::NOCREATECLUSTER, Keyword::CREATEDB, Keyword::NOCREATEDB, Keyword::CREATEROLE, Keyword::NOCREATEROLE]) {
        Some(k) => {
            let i = i + 1;
            match k {
                Keyword::SUPERUSER => {
                    role_attributes(p, i, options.push(TreeView::Node(Kind::SuperUser, Seq::<TreeView>::empty())))
                },
                Keyword::NOSUPERUSER => {
                    role_attributes(p, i, options.push(TreeView::Node(Kind::NoSuperUser, Seq::<TreeView>::empty())))
                },
                Keyword::LOGIN => {
                    role_attributes(p, i, options.push(TreeView::Node(Kind::Login, Seq::<TreeView>::empty())))
                },
                Keyword::NOLOGIN => {
                    role_attributes(p, i, options.push(TreeView::Node(Kind::NoLogin, Seq::<TreeView>::empty())))
                },
                Keyword::INHERIT => {
                    role_attributes(p, i, options.push(TreeView::Node(Kind::Inherit, Seq::<TreeView>::empty())))
                },
                Keyword::NOINHERIT => {
                    role_attributes(p, i, options.push(TreeView::Node(Kind::NoInherit, Seq::<TreeView>::empty())))
                },
                Keyword::CREATECLUSTER => {
                    role_attributes(p, i, options.push(TreeView::Node(Kind::MayCreateCluster, Seq::<TreeView>::empty())))
                },
                Keyword::NOCREATECLUSTER => {
                    role_attributes(p, i, options.push(TreeView::Node(Kind::NoCreateCluster, Seq::<TreeView>::empty())))
                },
                Keyword::CREATEDB => {
                    role_attributes(p, i, options.push(TreeView::Node(Kind::MayCreateDb, Seq::<TreeView>::empty())))
                },
                Keyword::NOCREATEDB => {
                    role_attributes(p, i, options.push(TreeView::Node(Kind::NoCreateDb, Seq::<TreeView>::empty())))
                },
                Keyword::CREATEROLE => {
                    role_attributes(p, i, options.push(TreeView::Node(Kind::MayCreateRole, Seq::<TreeView>::empty())))
                },
                _ => {
                    role_attributes(p, i, options.push(TreeView::Node(Kind::NoCreateRole, Seq::<TreeView>::empty())))
                },
            }
        },
        None => {
            Got(options, i)
        },
    }
}

impl Parser {
    /// Parse the attributes of a role that follow those in `options`.
    #[verifier::rlimit(30)]
    pub fn parse_role_attributes(&mut self, mut options: Trees) -> (r: Result<Trees, Failure>)
        requires
            old(self).ready(),
        ensures
            final(self).follows(*old(self), role_attributes(old(self).input(), old(self).index as int, options@), r),
            r matches Err(e) ==> !(e@ is Unhandled),
        decreases old(self).tokens.len() - old(self).index, 0int,
    {
        broadcast use group_tree_views;

        proof {
            reveal(role_attributes);
        }
        let ghost before = *self;
        let ghost goal = role_attributes(self.input(), self.index as int, options@);
        #[verifier::loop_isolation(false)]
        loop
            invariant
                self.ready(),
                self.input() == before.input(),
                self.tokens.len() == before.tokens.len(),
                before.index <= self.index,
                before == *old(self),
                role_attributes(self.input(), self.index as int, options@) == goal,
            decreases self.tokens.len() - self.index,
        {
            proof {
                reveal(role_attributes);
            }
            let choices: [Keyword; 12] = [Keyword::SUPERUSER, Keyword::NOSUPERUSER, Keyword::LOGIN, Keyword::NOLOGIN, Keyword::INHERIT, Keyword::NOINHERIT, Keyword::CREATECLUSTER, Keyword::NOCREATECLUSTER, Keyword::CREATEDB, Keyword::NOCREATEDB, Keyword::CREATEROLE, Keyword::NOCREATEROLE];
            assert(choices@ =~= seq![Keyword::SUPERUSER, Keyword::NOSUPERUSER, Keyword::LOGIN, Keyword::NOLOGIN, Keyword::INHERIT, Keyword::NOINHERIT, Keyword::CREATECLUSTER, Keyword::NOCREATECLUSTER, Keyword::CREATEDB, Keyword::NOCREATEDB, Keyword::CREATEROLE, Keyword::NOCREATEROLE]);
            match self.parse_one_of_keywords(&choices) {
                Some(k) => {
                    match k {
                        Keyword::SUPERUSER => {
                            options = options.with(node(Kind::SuperUser, trees0()));
                            continue;
                        },
                        Keyword::NOSUPERUSER => {
                            options = options.with(node(Kind::NoSuperUser, trees0()));
                            continue;
                        },
                        Keyword::LOGIN => {
                            options = options.with(node(Kind::Login, trees0()));
                            continue;
                        },
                        Keyword::NOLOGIN => {
                            options = options.with(node(Kind::NoLogin, trees0()));
                            continue;
                        },
                        Keyword::INHERIT => {
                            options = options.with(node(Kind::Inherit, trees0()));
                            continue;
                        },
                        Keyword::NOINHERIT => {
                            options = options.with(node(Kind::NoInherit, trees0()));
                            continue;
                        },
                        Keyword::CREATECLUSTER => {
                            options = options.with(node(Kind::MayCreateCluster, trees0()));
                            continue;
                        },
                        Keyword::NOCREATECLUSTER => {
                            options = options.with(node(Kind::NoCreateCluster, trees0()));
                            continue;
                        },
                        Keyword::CREATEDB => {
                            options = options.with(node(Kind::MayCreateDb, trees0()));
                            continue;
                        },
                        Keyword::NOCREATEDB => {
                            options = options.with(node(Kind::NoCreateDb, trees0()));
                            continue;
                        },
                        Keyword::CREATEROLE => {
                            options = options.with(node(Kind::MayCreateRole, trees0()));
                            continue;
                        },
                        _ => {
                            options = options.with(node(Kind::NoCreateRole, trees0()));
                            continue;
                        },
                    }
                },
                None => {
                    return Ok(options);
                },
            }
        }
    }
}

/// What [`Parser::parse_create_secret`] yields from the token at `i` on.
#[verifier::opaque]
pub open spec fn create_secret(p: Input, i: int) -> Out<TreeView>
{
    match keyword(p, i, Keyword::SECRET) { Failed(e, i) => Failed(e, i), Got(_, i) => {
    match if_not_exists(p, i) { Failed(e, i) => Failed(e, i), Got(if_not_exists, i) => {
    match item_name(p, i) { Failed(e, i) => Failed(e, i), Got(name, i) => {
    match keyword(p, i, Keyword::AS) { Failed(e, i) => Failed(e, i), Got(_, i) => {
    match expr(p, i) { Failed(e, i) => Failed(e, i), Got(v, i) => {
    Got(TreeView::Node(Kind::CreateSecret, seq![name, TreeView::Flag(if_not_exists), v]), i)
    }}
    }}
    }}
    }}
    }}
}

impl Parser {
    /// Parse a `CREATE SECRET` statement.
    pub fn parse_create_secret(&mut self) -> (r: Result<Tree, Failure>)
        requires
            old(self).ready(),
        ensures
            final(self).follows(*old(self), create_secret(old(self).input(), old(self).index as int), r),
            r is Ok ==> final(self).index > old(self).index,
            r matches Err(e) ==> !(e@ is Unhandled),
    {
        broadcast use group_tree_views;

        proof {
            reveal(create_secret);
        }
        self.expect_keyword(Keyword::SECRET)?;
        let if_not_exists = self.parse_if_not_exists()?;
        let name = self.parse_item_name()?;
        self.expect_keyword(Keyword::AS)?;
        let v = self.parse_expr()?;
        Ok(node(Kind::CreateSecret, trees3(name, Tree::Flag(if_not_exists), v)))
    }
}

/// What [`Parser::parse_create_type`] yields from the token at `i` on.
#[verifier::opaque]
pub open spec fn create_type(p: Input, i: int) -> Out<TreeView>
{
    match keyword(p, i, Keyword::TYPE) { Failed(e, i) => Failed(e, i), Got(_, i) => {
    match item_name(p, i) { Failed(e, i) => Failed(e, i), Got(name, i) => {
    match keyword(p, i, Keyword::AS) { Failed(e, i) => Failed(e, i), Got(_, i) => {
    match one_of(p, i, seq![Keyword::LIST, Keyword::MAP]) {
        Some(k) => {
            let i = i + 1;
            match token(p, i, TokenView::LParen) { Failed(e, i) => Failed(e, i), Got(_, i) => {
            if k == Keyword::LIST {
                match create_type_list_option_list(p, i, Seq::<TreeView>::empty()) { Failed(e, i) => Failed(e, i), Got(os, i) => {
                match token(p, i, TokenView::RParen) { Failed(e, i) => Failed(e, i), Got(_, i) => {
                Got(TreeView::Node(Kind::CreateType, seq![name, TreeView::Node(Kind::AsList, seq![TreeView::List(os)])]), i)
                }}
                }}
            } else {
                match create_type_map_option_list(p, i, Seq::<TreeView>::empty()) { Failed(e, i) => Failed(e, i), Got(os, i) => {
                match token(p, i, TokenView::RParen) { Failed(e, i) => Failed(e, i), Got(_, i) => {
                Got(TreeView::Node(Kind::CreateType, seq![name, TreeView::Node(Kind::AsMap, seq![TreeView::List(os)])]), i)
                }}
                }}
            }
            }}
        },
        None => {
            match composite_type_definition(p, i) { Failed(e, i) => Failed(e, i), Got(column_defs, i) => {
            Got(TreeView::Node(Kind::CreateType, seq![name, TreeView::Node(Kind::AsRecord, seq![TreeView::List(column_defs)])]), i)
            }}
        },
    }
    }}
    }}
    }}
}

impl Parser {
    /// Parse a `CREATE TYPE` statement.
    pub fn parse_create_type(&mut self) -> (r: Result<Tree, Failure>)
        requires
            old(self).ready(),
        ensures
            final(self).follows(*old(self), create_type(old(self).input(), old(self).index as int), r),
            r is Ok ==> final(self).index > old(self).index,
            r matches Err(e) ==> !(e@ is Unhandled),
    {
        broadcast use group_tree_views;

        proof {
            reveal(create_type);
        }
        self.expect_keyword(Keyword::TYPE)?;
        let name = self.parse_item_name()?;
        self.expect_keyword(Keyword::AS)?;
        let choices: [Keyword; 2] = [Keyword::LIST, Keyword::MAP];
        assert(choices@ =~= seq![Keyword::LIST, Keyword::MAP]);
        match self.parse_one_of_keywords(&choices) {
            Some(k) => {
                self.expect_token(&Token::LParen)?;
                if k == Keyword::LIST {
                    let os = self.parse_create_type_list_option_list(trees0())?;
                    self.expect_token(&Token::RParen)?;
                    Ok(node(Kind::CreateType, trees2(name, node(Kind::AsList, trees1(list(os))))))
                } else {
                    let os = self.parse_create_type_map_option_list(trees0())?;
                    self.expect_token(&Token::RParen)?;
                    Ok(node(Kind::CreateType, trees2(name, node(Kind::AsMap, trees1(list(os))))))
                }
            },
            None => {
                let column_defs = self.parse_composite_type_definition()?;
                Ok(node(Kind::CreateType, trees2(name, node(Kind::AsRecord, trees1(list(column_defs))))))
            },
        }
    }
}

/// What [`Parser::parse_create_type_list_option`] yields from the token at `i` on.
#[verifier::opaque]
pub open spec fn create_type_list_option(p: Input, i: int) -> Out<TreeView>
{
    match keyword(p, i, Keyword::ELEMENT) { Failed(e, i) => Failed(e, i), Got(_, i) => {
    match keyword(p, i, Keyword::TYPE) { Failed(e, i) => Failed(e, i), Got(_, i) => {
    match data_type_option_value(p, i) { Failed(e, i) => Failed(e, i), Got(v, i) => {
    Got(TreeView::Node(Kind::CreateTypeListOption, seq![TreeView::Node(Kind::ElementType, Seq::<TreeView>::empty()), v]), i)
    }}
    }}}}
}

impl Parser {
    /// Parse an option of a list type.
    pub fn parse_create_type_list_option(&mut self) -> (r: Result<Tree, Failure>)
        requires
            old(self).ready(),
        ensures
            final(self).follows(*old(self), create_type_list_option(old(self).input(), old(self).index as int), r),
            r is Ok ==> final(self).index > old(self).index,
            r matches Err(e) ==> !(e@ is Unhandled),
    {
        broadcast use group_tree_views;

        proof {
            reveal(create_type_list_option);
        }
        self.expect_keyword(Keyword::ELEMENT)?;
        self.expect_keyword(Keyword::TYPE)?;
        let v = self.parse_data_type_option_value()?;
        Ok(node(Kind::CreateTypeListOption, trees2(node(Kind::ElementType, trees0()), v)))
    }
}

/// What [`Parser::parse_create_type_list_option_list`] yields from the token at `i` on.
#[verifier::opaque]
pub open spec fn create_type_list_option_list(p: Input, i: int, items: Seq<TreeView>) -> Out<Seq<TreeView>>
    decreases p.toks.len() - i, 0int,
{
    match past(p, i, create_type_list_option(p, i)) { Failed(e, i) => Failed(e, i), Got(item, i) => {
    if at_token(p, i, TokenView::Comma) {
        let i = i + 1;
        create_type_list_option_list(p, i, items.push(item))
    } else {
        Got(items.push(item), i)
    }
    }}
}

impl Parser {
    /// Parses one or more `create_type_list_option`, separated by commas, after those in `items`.
    pub fn parse_create_type_list_option_list(&mut self, mut items: Trees) -> (r: Result<Trees, Failure>)
        requires
            old(self).ready(),
        ensures
            final(self).follows(*old(self), create_type_list_option_list(old(self).input(), old(self).index as int, items@), r),
            r is Ok ==> final(self).index > old(self).index,
            r matches Ok(all) ==> all@.len() > items@.len(),
            r matches Err(e) ==> !(e@ is Unhandled),
        decreases old(self).tokens.len() - old(self).index, 0int,
    {
        broadcast use group_tree_views;

        proof {
            reveal(create_type_list_option_list);
        }
        let ghost before = *self;
        let ghost given = items@.len();
        let ghost goal = create_type_list_option_list(self.input(), self.index as int, items@);
        #[verifier::loop_isolation(false)]
        loop
            invariant
                self.ready(),
                self.input() == before.input(),
                self.tokens.len() == before.tokens.len(),
                before.index <= self.index,
                before == *old(self),
                given <= items@.len(),
                create_type_list_option_list(self.input(), self.index as int, items@) == goal,
            decreases self.tokens.len() - self.index,
        {
            proof {
                reveal(create_type_list_option_list);
            }
            let item = self.parse_create_type_list_option()?;
            if self.consume_token(&Token::Comma) {
                items = items.with(item);
                continue;
            } else {
                return Ok(items.with(item));
            }
        }
    }
}

/// What [`Parser::parse_create_type_map_option`] yields from the token at `i` on.
#[verifier::opaque]
pub open spec fn create_type_map_option(p: Input, i: int) -> Out<TreeView>
{
    match one_keyword(p, i, seq![Keyword::KEY, Keyword::VALUE]) { Failed(e, i) => Failed(e, i), Got(k, i) => {
    match keyword(p, i, Keyword::TYPE) { Failed(e, i) => Failed(e, i), Got(_, i) => {
    match data_type_option_value(p, i) { Failed(e, i) => Failed(e, i), Got(v, i) => {
    if k == Keyword::KEY {
        Got(TreeView::Node(Kind::CreateTypeMapOption, seq![TreeView::Node(Kind::KeyType, Seq::<TreeView>::empty()), v]), i)
    } else {
        Got(TreeView::Node(Kind::CreateTypeMapOption, seq![TreeView::Node(Kind::ValueType, Seq::<TreeView>::empty()), v]), i)
    }
    }}
    }}
    }}
}

impl Parser {
    /// Parse an option of a map type.
    pub fn parse_create_type_map_option(&mut self) -> (r: Result<Tree, Failure>)
        requires
            old(self).ready(),
        ensures
            final(self).follows(*old(self), create_type_map_option(old(self).input(), old(self).index as int), r),
            r is Ok ==> final(self).index > old(self).index,
            r matches Err(e) ==> !(e@ is Unhandled),
    {
        broadcast use group_tree_views;

        proof {
            reveal(create_type_map_option);
        }
        let choices: [Keyword; 2] = [Keyword::KEY, Keyword::VALUE];
        assert(choices@ =~= seq![Keyword::KEY, Keyword::VALUE]);
        let k = self.expect_one_of_keywords(&choices)?;
        self.expect_keyword(Keyword::TYPE)?;
        let v = self.parse_data_type_option_value()?;
        if k == Keyword::KEY {
            Ok(node(Kind::CreateTypeMapOption, trees2(node(Kind::KeyType, trees0()), v)))
        } else {
            Ok(node(Kind::CreateTypeMapOption, trees2(node(Kind::ValueType, trees0()), v)))
        }
    }
}

/// What [`Parser::parse_create_type_map_option_list`] yields from the token at `i` on.
#[verifier::opaque]
pub open spec fn create_type_map_option_list(p: Input, i: int, items: Seq<TreeView>) -> Out<Seq<TreeView>>
    decreases p.toks.len() - i, 0int,
{
    match past(p, i, create_type_map_option(p, i)) { Failed(e, i) => Failed(e, i), Got(item, i) => {
    if at_token(p, i, TokenView::Comma) {
        let i = i + 1;
        create_type_map_option_list(p, i, items.push(item))
    } else {
        Got(items.push(item), i)
    }
    }}
}

impl Parser {
    /// Parses one or more `create_type_map_option`, separated by commas, after those in `items`.
    pub fn parse_create_type_map_option_list(&mut self, mut items: Trees) -> (r: Result<Trees, Failure>)
        requires
            old(self).ready(),
        ensures
            final(self).follows(*old(self), create_type_map_option_list(old(self).input(), old(self).index as int, items@), r),
            r is Ok ==> final(self).index > old(self).index,
            r matches Ok(all) ==> all@.len() > items@.len(),
            r matches Err(e) ==> !(e@ is Unhandled),
        decreases old(self).tokens.len() - old(self).index, 0int,
    {
        broadcast use group_tree_views;

        proof {
            reveal(create_type_map_option_list);
        }
        let ghost before = *self;
        let ghost given = items@.len();
        let ghost goal = create_type_map_option_list(self.input(), self.index as int, items@);
        #[verifier::loop_isolation(false)]
        loop
            invariant
                self.ready(),
                self.input() == before.input(),
                self.tokens.len() == before.tokens.len(),
                before.index <= self.index,
                before == *old(self),
                given <= items@.len(),
                create_type_map_option_list(self.input(), self.index as int, items@) == goal,
            decreases self.tokens.len() - self.index,
        {
            proof {
                reveal(create_type_map_option_list);
            }
            let item = self.parse_create_type_map_option()?;
            if self.consume_token(&Token::Comma) {
                items = items.with(item);
                continue;
            } else {
                return Ok(items.with(item));
            }
        }
    }
}

/// What [`Parser::parse_create_cluster`] yields from the token at `i` on.
#[verifier::opaque]
pub open spec fn create_cluster(p: Input, i: int) -> Out<TreeView>
{
    match identifier(p, i) { Failed(e, i) => Failed(e, i), Got(name, i) => {
    match cluster_option_list(p, i, Seq::<TreeView>::empty()) { Failed(e, i) => Failed(e, i), Got(options, i) => {
    Got(TreeView::Node(Kind::CreateCluster, seq![name, TreeView::List(options)]), i)
    }}
    }}
}

impl Parser {
    /// Parse a `CREATE CLUSTER` statement.
    pub fn parse_create_cluster(&mut self) -> (r: Result<Tree, Failure>)
        requires
            old(self).ready(),
        ensures
            final(self).follows(*old(self), create_cluster(old(self).input(), old(self).index as int), r),
            r is Ok ==> final(self).index > old(self).index,
            r matches Err(e) ==> !(e@ is Unhandled),
    {
        broadcast use group_tree_views;

        proof {
            reveal(create_cluster);
        }
        let name = self.parse_identifier()?;
        let options = self.parse_cluster_option_list(trees0())?;
        Ok(node(Kind::CreateCluster, trees2(name, list(options))))
    }
}

/// What [`Parser::parse_replica_definition`] yields from the token at `i` on.
#[verifier::opaque]
pub open spec fn replica_definition(p: Input, i: int) -> Out<TreeView>
{
    match identifier(p, i) { Failed(e, i) => Failed(e, i), Got(name, i) => {
    match token(p, i, TokenView::LParen) { Failed(e, i) => Failed(e, i), Got(_, i) => {
    match replica_option_list(p, i, Seq::<TreeView>::empty()) { Failed(e, i) => Failed(e, i), Got(options, i) => {
    match token(p, i, TokenView::RParen) { Failed(e, i) => Failed(e, i), Got(_, i) => {
    Got(TreeView::Node(Kind::ReplicaDefinition, seq![name, TreeView::List(options)]), i)
    }}
    }}
    }}
    }}
}

impl Parser {
    /// Parse a replica of a cluster that is created.
    pub fn parse_replica_definition(&mut self) -> (r: Result<Tree, Failure>)
        requires
            old(self).ready(),
        ensures
            final(self).follows(*old(self), replica_definition(old(self).input(), old(self).index as int), r),
            r is Ok ==> final(self).index > old(self).index,
            r matches Err(e) ==> !(e@ is Unhandled),
    {
        broadcast use group_tree_views;

        proof {
            reveal(replica_definition);
        }
        let name = self.parse_identifier()?;
        self.expect_token(&Token::LParen)?;
        let options = self.parse_replica_option_list(trees0())?;
        self.expect_token(&Token::RParen)?;
        Ok(node(Kind::ReplicaDefinition, trees2(name, list(options))))
    }
}

/// What [`Parser::parse_replica_definition_list`] yields from the token at `i` on.
#[verifier::opaque]
pub open spec fn replica_definition_list(p: Input, i: int, items: Seq<TreeView>) -> Out<Seq<TreeView>>
    decreases p.toks.len() - i, 0int,
{
    match past(p, i, replica_definition(p, i)) { Failed(e, i) => Failed(e, i), Got(item, i) => {
    if at_token(p, i, TokenView::Comma) {
        let i = i + 1;
        replica_definition_list(p, i, items.push(item))
    } else {
        Got(items.push(item), i)
    }
    }}
}

impl Parser {
    /// Parses one or more `replica_definition`, separated by commas, after those in `items`.
    pub fn parse_replica_definition_list(&mut self, mut items: Trees) -> (r: Result<Trees, Failure>)
        requires
            old(self).ready(),
        ensures
            final(self).follows(*old(self), replica_definition_list(old(self).input(), old(self).index as int, items@), r),
            r is Ok ==> final(self).index > old(self).index,
            r matches Ok(all) ==> all@.len() > items@.len(),
            r matches Err(e) ==> !(e@ is Unhandled),
        decreases old(self).tokens.len() - old(self).index, 0int,
    {
        broadcast use group_tree_views;

        proof {
            reveal(replica_definition_list);
        }
        let ghost before = *self;
        let ghost given = items@.len();
        let ghost goal = replica_definition_list(self.input(), self.index as int, items@);
        #[verifier::loop_isolation(false)]
        loop
            invariant
                self.ready(),
                self.input() == before.input(),
                self.tokens.len() == before.tokens.len(),
                before.index <= self.index,
                before == *old(self),
                given <= items@.len(),
                replica_definition_list(self.input(), self.index as int, items@) == goal,
            decreases self.tokens.len() - self.index,
        {
            proof {
                reveal(replica_definition_list);
            }
            let item = self.parse_replica_definition()?;
            if self.consume_token(&Token::Comma) {
                items = items.with(item);
                continue;
            } else {
                return Ok(items.with(item));
            }
        }
    }
}

/// What [`Parser::parse_cluster_option`] yields from the token at `i` on.
#[verifier::opaque]
pub open spec fn cluster_option(p: Input, i: int) -> Out<TreeView>
{
    match keyword(p, i, Keyword::REPLICAS) { Failed(e, i) => Failed(e, i), Got(_, i) => {
    match token(p, i, TokenView::LParen) { Failed(e, i) => Failed(e, i), Got(_, i) => {
    match {
        if at_token(p, i, TokenView::RParen) {
            let i = i + 1;
            Got(TreeView::List(Seq::<TreeView>::empty()), i)
        } else {
            match replica_definition_list(p, i, Seq::<TreeView>::empty()) { Failed(e, i) => Failed(e, i), Got(rs, i) => {
            match token(p, i, TokenView::RParen) { Failed(e, i) => Failed(e, i), Got(_, i) => {
            Got(TreeView::List(rs), i)
            }}
            }}
        }
    } { Failed(e, i) => Failed(e, i), Got(replicas, i) => {
    Got(TreeView::Node(Kind::ClusterOption, seq![TreeView::Node(Kind::Replicas, Seq::<TreeView>::empty()), TreeView::Node(Kind::ClusterReplicasValue, seq![replicas])]), i)
    }}
    }}
    }}
}

impl Parser {
    /// Parse the option of a cluster that gives its replicas.
    pub fn parse_cluster_option(&mut self) -> (r: Result<Tree, Failure>)
        requires
            old(self).ready(),
        ensures
            final(self).follows(*old(self), cluster_option(old(self).input(), old(self).index as int), r),
            r is Ok ==> final(self).index > old(self).index,
            r matches Err(e) ==> !(e@ is Unhandled),
    {
        broadcast use group_tree_views;

        proof {
            reveal(cluster_option);
        }
        self.expect_keyword(Keyword::REPLICAS)?;
        self.expect_token(&Token::LParen)?;
        let replicas = if self.consume_token(&Token::RParen) {
            list(trees0())
        } else {
            let rs = self.parse_replica_definition_list(trees0())?;
            self.expect_token(&Token::RParen)?;
            list(rs)
        };
        Ok(node(Kind::ClusterOption, trees2(node(Kind::Replicas, trees0()), node(Kind::ClusterReplicasValue, trees1(replicas)))))
    }
}

/// What [`Parser::parse_cluster_option_list`] yields from the token at `i` on.
#[verifier::opaque]
pub open spec fn cluster_option_list(p: Input, i: int, items: Seq<TreeView>) -> Out<Seq<TreeView>>
    decreases p.toks.len() - i, 0int,
{
    match past(p, i, cluster_option(p, i)) { Failed(e, i) => Failed(e, i), Got(item, i) => {
    if at_token(p, i, TokenView::Comma) {
        let i = i + 1;
        cluster_option_list(p, i, items.push(item))
    } else {
        Got(items.push(item), i)
    }
    }}
}

impl Parser {
    /// Parses one or more `cluster_option`, separated by commas, after those in `items`.
    pub fn parse_cluster_option_list(&mut self, mut items: Trees) -> (r: Result<Trees, Failure>)
        requires
            old(self).ready(),
        ensures
            final(self).follows(*old(self), cluster_option_list(old(self).input(), old(self).index as int, items@), r),
            r is Ok ==> final(self).index > old(self).index,
            r matches Ok(all) ==> all@.len() > items@.len(),
            r matches Err(e) ==> !(e@ is Unhandled),
        decreases old(self).tokens.len() - old(self).index, 0int,
    {
        broadcast use group_tree_views;

        proof {
            reveal(cluster_option_list);
        }
        let ghost before = *self;
        let ghost given = items@.len();
        let ghost goal = cluster_option_list(self.input(), self.index as int, items@);
        #[verifier::loop_isolation(false)]
        loop
            invariant
                self.ready(),
                self.input() == before.input(),
                self.tokens.len() == before.tokens.len(),
                before.index <= self.index,
                before == *old(self),
                given <= items@.len(),
                cluster_option_list(self.input(), self.index as int, items@) == goal,
            decreases self.tokens.len() - self.index,
        {
            proof {
                reveal(cluster_option_list);
            }
            let item = self.parse_cluster_option()?;
            if self.consume_token(&Token::Comma) {
                items = items.with(item);
                continue;
            } else {
                return Ok(items.with(item));
            }
        }
    }
}

/// What [`Parser::parse_replica_option`] yields from the token at `i` on.
#[verifier::opaque]
pub open spec fn replica_option(p: Input, i: int) -> Out<TreeView>
{
    match one_keyword(p, i, seq![Keyword::AVAILABILITY, Keyword::COMPUTE, Keyword::COMPUTECTL, Keyword::IDLE, Keyword::INTROSPECTION, Keyword::SIZE, Keyword::STORAGE, Keyword::STORAGECTL, Keyword::WORKERS]) { Failed(e, i) => Failed(e, i), Got(k, i) => {
    match {
        match k {
            Keyword::AVAILABILITY => {
                match keyword(p, i, Keyword::ZONE) { Failed(e, i) => Failed(e, i), Got(_, i) => {
                Got(TreeView::Node(Kind::AvailabilityZone, Seq::<TreeView>::empty()), i)
                }}
            },
            Keyword::COMPUTE => {
                match keyword(p, i, Keyword::ADDRESSES) { Failed(e, i) => Failed(e, i), Got(_, i) => {
                Got(TreeView::Node(Kind::ComputeAddresses, Seq::<TreeView>::empty()), i)
                }}
            },
            Keyword::COMPUTECTL => {
                match keyword(p, i, Keyword::ADDRESSES) { Failed(e, i) => Failed(e, i), Got(_, i) => {
                Got(TreeView::Node(Kind::ComputectlAddresses, Seq::<TreeView>::empty()), i)
                }}
            },
            Keyword::IDLE => {
                match keyword(p, i, Keyword::ARRANGEMENT) { Failed(e, i) => Failed(e, i), Got(_, i) => {
                match keyword(p, i, Keyword::MERGE) { Failed(e, i) => Failed(e, i), Got(_, i) => {
                match keyword(p, i, Keyword::EFFORT) { Failed(e, i) => Failed(e, i), Got(_, i) => {
                Got(TreeView::Node(Kind::IdleArrangementMergeEffort, Seq::<TreeView>::empty()), i)
                }}}}}}
            },
            Keyword::INTROSPECTION => {
                match one_keyword(p, i, seq![Keyword::DEBUGGING, Keyword::INTERVAL]) { Failed(e, i) => Failed(e, i), Got(which, i) => {
                if which == Keyword::DEBUGGING {
                    Got(TreeView::Node(Kind::IntrospectionDebugging, Seq::<TreeView>::empty()), i)
                } else {
                    Got(TreeView::Node(Kind::IntrospectionInterval, Seq::<TreeView>::empty()), i)
                }
                }}
            },
            Keyword::SIZE => {
                Got(TreeView::Node(Kind::Size, Seq::<TreeView>::empty()), i)
            },
            Keyword::STORAGE => {
                match keyword(p, i, Keyword::ADDRESSES) { Failed(e, i) => Failed(e, i), Got(_, i) => {
                Got(TreeView::Node(Kind::StorageAddresses, Seq::<TreeView>::empty()), i)
                }}
            },
            Keyword::STORAGECTL => {
                match keyword(p, i, Keyword::ADDRESSES) { Failed(e, i) => Failed(e, i), Got(_, i) => {
                Got(TreeView::Node(Kind::StoragectlAddresses, Seq::<TreeView>::empty()), i)
                }}
            },
            _ => {
                Got(TreeView::Node(Kind::Workers, Seq::<TreeView>::empty()), i)
            },
        }
    } { Failed(e, i) => Failed(e, i), Got(name, i) => {
    match optional_option_value(p, i) { Failed(e, i) => Failed(e, i), Got(v, i) => {
    Got(TreeView::Node(Kind::ReplicaOption, seq![name, v]), i)
    }}
    }}
    }}
}

impl Parser {
    /// Parse an option of a replica.
    #[verifier::rlimit(30)]
    pub fn parse_replica_option(&mut self) -> (r: Result<Tree, Failure>)
        requires
            old(self).ready(),
        ensures
            final(self).follows(*old(self), replica_option(old(self).input(), old(self).index as int), r),
            r is Ok ==> final(self).index > old(self).index,
            r matches Err(e) ==> !(e@ is Unhandled),
    {
        broadcast use group_tree_views;

        proof {
            reveal(replica_option);
        }
        let choices: [Keyword; 9] = [Keyword::AVAILABILITY, Keyword::COMPUTE, Keyword::COMPUTECTL, Keyword::IDLE, Keyword::INTROSPECTION, Keyword::SIZE, Keyword::STORAGE, Keyword::STORAGECTL, Keyword::WORKERS];
        assert(choices@ =~= seq![Keyword::AVAILABILITY, Keyword::COMPUTE, Keyword::COMPUTECTL, Keyword::IDLE, Keyword::INTROSPECTION, Keyword::SIZE, Keyword::STORAGE, Keyword::STORAGECTL, Keyword::WORKERS]);
        let k = self.expect_one_of_keywords(&choices)?;
        let name = match k {
            Keyword::AVAILABILITY => {
                self.expect_keyword(Keyword::ZONE)?;
                node(Kind::AvailabilityZone, trees0())
            },
            Keyword::COMPUTE => {
                self.expect_keyword(Keyword::ADDRESSES)?;
                node(Kind::ComputeAddresses, trees0())
            },
            Keyword::COMPUTECTL => {
                self.expect_keyword(Keyword::ADDRESSES)?;
                node(Kind::ComputectlAddresses, trees0())
            },
            Keyword::IDLE => {
                self.expect_keyword(Keyword::ARRANGEMENT)?;
                self.expect_keyword(Keyword::MERGE)?;
                self.expect_keyword(Keyword::EFFORT)?;
                node(Kind::IdleArrangementMergeEffort, trees0())
            },
            Keyword::INTROSPECTION => {
                let choices: [Keyword; 2] = [Keyword::DEBUGGING, Keyword::INTERVAL];
                assert(choices@ =~= seq![Keyword::DEBUGGING, Keyword::INTERVAL]);
                let which = self.expect_one_of_keywords(&choices)?;
                if which == Keyword::DEBUGGING {
                    node(Kind::IntrospectionDebugging, trees0())
                } else {
                    node(Kind::IntrospectionInterval, trees0())
                }
            },
            Keyword::SIZE => {
                node(Kind::Size, trees0())
            },
            Keyword::STORAGE => {
                self.expect_keyword(Keyword::ADDRESSES)?;
                node(Kind::StorageAddresses, trees0())
            },
            Keyword::STORAGECTL => {
                self.expect_keyword(Keyword::ADDRESSES)?;
                node(Kind::StoragectlAddresses, trees0())
            },
            _ => {
                node(Kind::Workers, trees0())
            },
        };
        let v = self.parse_optional_option_value()?;
        Ok(node(Kind::ReplicaOption, trees2(name, v)))
    }
}

/// What [`Parser::parse_replica_option_list`] yields from the token at `i` on.
#[verifier::opaque]
pub open spec fn replica_option_list(p: Input, i: int, items: Seq<TreeView>) -> Out<Seq<TreeView>>
    decreases p.toks.len() - i, 0int,
{
    match past(p, i, replica_option(p, i)) { Failed(e, i) => Failed(e, i), Got(item, i) => {
    if at_token(p, i, TokenView::Comma) {
        let i = i + 1;
        replica_option_list(p, i, items.push(item))
    } else {
        Got(items.push(item), i)
    }
    }}
}

impl Parser {
    /// Parses one or more `replica_option`, separated by commas, after those in `items`.
    pub fn parse_replica_option_list(&mut self, mut items: Trees) -> (r: Result<Trees, Failure>)
        requires
            old(self).ready(),
        ensures
            final(self).follows(*old(self), replica_option_list(old(self).input(), old(self).index as int, items@), r),
            r is Ok ==> final(self).index > old(self).index,
            r matches Ok(all) ==> all@.len() > items@.len(),
            r matches Err(e) ==> !(e@ is Unhandled),
        decreases old(self).tokens.len() - old(self).index, 0int,
    {
        broadcast use group_tree_views;

        proof {
            reveal(replica_option_list);
        }
        let ghost before = *self;
        let ghost given = items@.len();
        let ghost goal = replica_option_list(self.input(), self.index as int, items@);
        #[verifier::loop_isolation(false)]
        loop
            invariant
                self.ready(),
                self.input() == before.input(),
                self.tokens.len() == before.tokens.len(),
                before.index <= self.index,
                before == *old(self),
                given <= items@.len(),
                replica_option_list(self.input(), self.index as int, items@) == goal,
            decreases self.tokens.len() - self.index,
        {
            proof {
                reveal(replica_option_list);
            }
            let item = self.parse_replica_option()?;
            if self.consume_token(&Token::Comma) {
                items = items.with(item);
                continue;
            } else {
                return Ok(items.with(item));
            }
        }
    }
}

/// What [`Parser::parse_create_cluster_replica`] yields from the token at `i` on.
#[verifier::opaque]
pub open spec fn create_cluster_replica(p: Input, i: int) -> Out<TreeView>
{
    match keyword(p, i, Keyword::REPLICA) { Failed(e, i) => Failed(e, i), Got(_, i) => {
    match identifier(p, i) { Failed(e, i) => Failed(e, i), Got(of_cluster, i) => {
    match token(p, i, TokenView::Dot) { Failed(e, i) => Failed(e, i), Got(_, i) => {
    match identifier(p, i) { Failed(e, i) => Failed(e, i), Got(name, i) => {
    match replica_option_list(p, i, Seq::<TreeView>::empty()) { Failed(e, i) => Failed(e, i), Got(options, i) => {
    Got(TreeView::Node(Kind::CreateClusterReplica, seq![of_cluster, TreeView::Node(Kind::ReplicaDefinition, seq![name, TreeView::List(options)])]), i)
    }}
    }}
    }}
    }}
    }}
}

impl Parser {
    /// Parse a `CREATE CLUSTER REPLICA` statement.
    pub fn parse_create_cluster_replica(&mut self) -> (r: Result<Tree, Failure>)
        requires
            old(self).ready(),
        ensures
            final(self).follows(*old(self), create_cluster_replica(old(self).input(), old(self).index as int), r),
            r is Ok ==> final(self).index > old(self).index,
            r matches Err(e) ==> !(e@ is Unhandled),
    {
        broadcast use group_tree_views;

        proof {
            reveal(create_cluster_replica);
        }
        self.expect_keyword(Keyword::REPLICA)?;
        let of_cluster = self.parse_identifier()?;
        self.expect_token(&Token::Dot)?;
        let name = self.parse_identifier()?;
        let options = self.parse_replica_option_list(trees0())?;
        Ok(node(Kind::CreateClusterReplica, trees2(of_cluster, node(Kind::ReplicaDefinition, trees2(name, list(options))))))
    }
}

/// What [`Parser::parse_source_metadata`] yields from the token at `i` on.
#[verifier::opaque]
pub open spec fn source_metadata(p: Input, i: int) -> Out<TreeView>
{
    match one_keyword(p, i, seq![Keyword::KEY, Keyword::TIMESTAMP, Keyword::PARTITION, Keyword::TOPIC, Keyword::OFFSET, Keyword::HEADERS]) { Failed(e, i) => Failed(e, i), Got(k, i) => {
    match {
        match k {
            Keyword::KEY => {
                Got(TreeView::Node(Kind::KeyMetadata, Seq::<TreeView>::empty()), i)
            },
            Keyword::TIMESTAMP => {
                Got(TreeView::Node(Kind::TimestampMetadata, Seq::<TreeView>::empty()), i)
            },
            Keyword::PARTITION => {
                Got(TreeView::Node(Kind::PartitionMetadata, Seq::<TreeView>::empty()), i)
            },
            Keyword::TOPIC => {
                Got(TreeView::Node(Kind::TopicMetadata, Seq::<TreeView>::empty()), i)
            },
            Keyword::OFFSET => {
                Got(TreeView::Node(Kind::OffsetMetadata, Seq::<TreeView>::empty()), i)
            },
            _ => {
                Got(TreeView::Node(Kind::HeadersMetadata, Seq::<TreeView>::empty()), i)
            },
        }
    } { Failed(e, i) => Failed(e, i), Got(ty, i) => {
    match {
        if at_keyword(p, i, Keyword::AS) {
            let i = i + 1;
            identifier(p, i)
        } else {
            Got(TreeView::Absent, i)
        }
    } { Failed(e, i) => Failed(e, i), Got(alias, i) => {
    Got(TreeView::Node(Kind::SourceIncludeMetadata, seq![ty, alias]), i)
    }}
    }}
    }}
}

impl Parser {
    /// Parse a kind of metadata that a source includes.
    pub fn parse_source_metadata(&mut self) -> (r: Result<Tree, Failure>)
        requires
            old(self).ready(),
        ensures
            final(self).follows(*old(self), source_metadata(old(self).input(), old(self).index as int), r),
            r is Ok ==> final(self).index > old(self).index,
            r matches Err(e) ==> !(e@ is Unhandled),
    {
        broadcast use group_tree_views;

        proof {
            reveal(source_metadata);
        }
        let choices: [Keyword; 6] = [Keyword::KEY, Keyword::TIMESTAMP, Keyword::PARTITION, Keyword::TOPIC, Keyword::OFFSET, Keyword::HEADERS];
        assert(choices@ =~= seq![Keyword::KEY, Keyword::TIMESTAMP, Keyword::PARTITION, Keyword::TOPIC, Keyword::OFFSET, Keyword::HEADERS]);
        let k = self.expect_one_of_keywords(&choices)?;
        let ty = match k {
            Keyword::KEY => {
                node(Kind::KeyMetadata, trees0())
            },
            Keyword::TIMESTAMP => {
                node(Kind::TimestampMetadata, trees0())
            },
            Keyword::PARTITION => {
                node(Kind::PartitionMetadata, trees0())
            },
            Keyword::TOPIC => {
                node(Kind::TopicMetadata, trees0())
            },
            Keyword::OFFSET => {
                node(Kind::OffsetMetadata, trees0())
            },
            _ => {
                node(Kind::HeadersMetadata, trees0())
            },
        };
        let alias = if self.parse_keyword(Keyword::AS) {
            self.parse_identifier()?
        } else {
            Tree::Absent
        };
        Ok(node(Kind::SourceIncludeMetadata, trees2(ty, alias)))
    }
}

/// What [`Parser::parse_source_metadata_list`] yields from the token at `i` on.
#[verifier::opaque]
pub open spec fn source_metadata_list(p: Input, i: int, items: Seq<TreeView>) -> Out<Seq<TreeView>>
    decreases p.toks.len() - i, 0int,
{
    match past(p, i, source_metadata(p, i)) { Failed(e, i) => Failed(e, i), Got(item, i) => {
    if at_token(p, i, TokenView::Comma) {
        let i = i + 1;
        source_metadata_list(p, i, items.push(item))
    } else {
        Got(items.push(item), i)
    }
    }}
}

impl Parser {
    /// Parses one or more `source_metadata`, separated by commas, after those in `items`.
    pub fn parse_source_metadata_list(&mut self, mut items: Trees) -> (r: Result<Trees, Failure>)
        requires
            old(self).ready(),
        ensures
            final(self).follows(*old(self), source_metadata_list(old(self).input(), old(self).index as int, items@), r),
            r is Ok ==> final(self).index > old(self).index,
            r matches Ok(all) ==> all@.len() > items@.len(),
            r matches Err(e) ==> !(e@ is Unhandled),
        decreases old(self).tokens.len() - old(self).index, 0int,
    {
        broadcast use group_tree_views;

        proof {
            reveal(source_metadata_list);
        }
        let ghost before = *self;
        let ghost given = items@.len();
        let ghost goal = source_metadata_list(self.input(), self.index as int, items@);
        #[verifier::loop_isolation(false)]
        loop
            invariant
                self.ready(),
                self.input() == before.input(),
                self.tokens.len() == before.tokens.len(),
                before.index <= self.index,
                before == *old(self),
                given <= items@.len(),
                source_metadata_list(self.input(), self.index as int, items@) == goal,
            decreases self.tokens.len() - self.index,
        {
            proof {
                reveal(source_metadata_list);
            }
            let item = self.parse_source_metadata()?;
            if self.consume_token(&Token::Comma) {
                items = items.with(item);
                continue;
            } else {
                return Ok(items.with(item));
            }
        }
    }
}

/// What [`Parser::parse_source_include_metadata`] yields from the token at `i` on.
#[verifier::opaque]
pub open spec fn source_include_metadata(p: Input, i: int) -> Out<TreeView>
{
    if at_keyword(p, i, Keyword::INCLUDE) {
        let i = i + 1;
        match source_metadata_list(p, i, Seq::<TreeView>::empty()) { Failed(e, i) => Failed(e, i), Got(ms, i) => {
        Got(TreeView::List(ms), i)
        }}
    } else {
        Got(TreeView::List(Seq::<TreeView>::empty()), i)
    }
}

impl Parser {
    /// Parse the metadata that a source includes, if any is asked for.
    pub fn parse_source_include_metadata(&mut self) -> (r: Result<Tree, Failure>)
        requires
            old(self).ready(),
        ensures
            final(self).follows(*old(self), source_include_metadata(old(self).input(), old(self).index as int), r),
            r matches Err(e) ==> !(e@ is Unhandled),
    {
        broadcast use group_tree_views;

        proof {
            reveal(source_include_metadata);
        }
        if self.parse_keyword(Keyword::INCLUDE) {
            let ms = self.parse_source_metadata_list(trees0())?;
            Ok(list(ms))
        } else {
            Ok(list(trees0()))
        }
    }
}

/// What [`Parser::parse_create_table`] yields from the token at `i` on.
#[verifier::opaque]
pub open spec fn create_table(p: Input, i: int) -> Out<TreeView>
{
    match temporary(p, i) { Failed(e, i) => Failed(e, i), Got(temporary, i) => {
    match keyword(p, i, Keyword::TABLE) { Failed(e, i) => Failed(e, i), Got(_, i) => {
    match if_not_exists(p, i) { Failed(e, i) => Failed(e, i), Got(if_not_exists, i) => {
    match item_name(p, i) { Failed(e, i) => Failed(e, i), Got(table_name, i) => {
    match columns(p, i) { Failed(e, i) => Failed(e, i), Got(columns, i) => {
    Got(TreeView::Node(Kind::CreateTable, seq![table_name, columns, TreeView::Flag(if_not_exists), TreeView::Flag(temporary)]), i)
    }}
    }}
    }}
    }}
    }}
}

impl Parser {
    /// Parse a `CREATE TABLE` statement.
    pub fn parse_create_table(&mut self) -> (r: Result<Tree, Failure>)
        requires
            old(self).ready(),
        ensures
            final(self).follows(*old(self), create_table(old(self).input(), old(self).index as int), r),
            r is Ok ==> final(self).index > old(self).index,
            r matches Err(e) ==> !(e@ is Unhandled),
    {
        broadcast use group_tree_views;

        proof {
            reveal(create_table);
        }
        let temporary = self.parse_temporary()?;
        self.expect_keyword(Keyword::TABLE)?;
        let if_not_exists = self.parse_if_not_exists()?;
        let table_name = self.parse_item_name()?;
        let columns = self.parse_columns()?;
        Ok(node(Kind::CreateTable, trees4(table_name, columns, Tree::Flag(if_not_exists), Tree::Flag(temporary))))
    }
}

/// What [`Parser::parse_columns`] yields from the token at `i` on.
#[verifier::opaque]
pub open spec fn columns(p: Input, i: int) -> Out<TreeView>
{
    if at_token(p, i, TokenView::LParen) {
        let i = i + 1;
        if at_token(p, i, TokenView::RParen) {
            let i = i + 1;
            Got(TreeView::Node(Kind::Columns, seq![TreeView::List(Seq::<TreeView>::empty()), TreeView::List(Seq::<TreeView>::empty())]), i)
        } else {
            column_list(p, i, Seq::<TreeView>::empty(), Seq::<TreeView>::empty())
        }
    } else {
        Failed(expected_at(p, i, "a list of columns in parentheses"@), i)
    }
}

impl Parser {
    /// Parse the columns and constraints of a table, in parentheses. Tables with zero
    /// columns are a PostgreSQL extension.
    pub fn parse_columns(&mut self) -> (r: Result<Tree, Failure>)
        requires
            old(self).ready(),
        ensures
            final(self).follows(*old(self), columns(old(self).input(), old(self).index as int), r),
            r is Ok ==> final(self).index > old(self).index,
            r matches Err(e) ==> !(e@ is Unhandled),
    {
        broadcast use group_tree_views;

        proof {
            reveal(columns);
        }
        if !self.consume_token(&Token::LParen) {
            Err(self.expected_here("a list of columns in parentheses"))
        } else if self.consume_token(&Token::RParen) {
            Ok(node(Kind::Columns, trees2(list(trees0()), list(trees0()))))
        } else {
            self.parse_column_list(trees0(), trees0())
        }
    }
}

/// What [`Parser::parse_column_list`] yields from the token at `i` on.
#[verifier::opaque]
pub open spec fn column_list(p: Input, i: int, columns: Seq<TreeView>, constraints: Seq<TreeView>) -> Out<TreeView>
    decreases p.toks.len() - i, 0int,
{
    match onward(p, i, optional_table_constraint(p, i)) { Failed(e, i) => Failed(e, i), Got(constraint, i) => {
    if constraint is Absent {
        match past(p, i, column_def(p, i)) { Failed(e, i) => Failed(e, i), Got(column, i) => {
        if at_token(p, i, TokenView::Comma) {
            let i = i + 1;
            column_list(p, i, columns.push(column), constraints)
        } else {
            if at_token(p, i, TokenView::RParen) {
                let i = i + 1;
                Got(TreeView::Node(Kind::Columns, seq![TreeView::List(columns.push(column)), TreeView::List(constraints)]), i)
            } else {
                Failed(expected_at(p, i, "',' or ')' after column definition"@), i)
            }
        }
        }}
    } else {
        if at_token(p, i, TokenView::Comma) {
            let i = i + 1;
            column_list(p, i, columns, constraints.push(constraint))
        } else {
            if at_token(p, i, TokenView::RParen) {
                let i = i + 1;
                Got(TreeView::Node(Kind::Columns, seq![TreeView::List(columns), TreeView::List(constraints.push(constraint))]), i)
            } else {
                Failed(expected_at(p, i, "',' or ')' after column definition"@), i)
            }
        }
    }
    }}
}

impl Parser {
    /// Parse the columns and constraints that follow those given, up to the closing
    /// parenthesis.
    pub fn parse_column_list(&mut self, mut columns: Trees, mut constraints: Trees) -> (r: Result<Tree, Failure>)
        requires
            old(self).ready(),
        ensures
            final(self).follows(*old(self), column_list(old(self).input(), old(self).index as int, columns@, constraints@), r),
            r is Ok ==> final(self).index > old(self).index,
            r matches Err(e) ==> !(e@ is Unhandled),
        decreases old(self).tokens.len() - old(self).index, 0int,
    {
        broadcast use group_tree_views;

        proof {
            reveal(column_list);
        }
        let ghost before = *self;
        let ghost goal = column_list(self.input(), self.index as int, columns@, constraints@);
        #[verifier::loop_isolation(false)]
        loop
            invariant
                self.ready(),
                self.input() == before.input(),
                self.tokens.len() == before.tokens.len(),
                before.index <= self.index,
                before == *old(self),
                column_list(self.input(), self.index as int, columns@, constraints@) == goal,
            decreases self.tokens.len() - self.index,
        {
            proof {
                reveal(column_list);
            }
            let constraint = self.parse_optional_table_constraint()?;
            if constraint.is_absent() {
                let column = self.parse_column_def()?;
                if self.consume_token(&Token::Comma) {
                    columns = columns.with(column);
                    continue;
                } else if self.consume_token(&Token::RParen) {
                    return Ok(node(Kind::Columns, trees2(list(columns.with(column)), list(constraints))));
                } else {
                    return Err(self.expected_here("',' or ')' after column definition"));
                }
            } else if self.consume_token(&Token::Comma) {
                constraints = constraints.with(constraint);
                continue;
            } else if self.consume_token(&Token::RParen) {
                return Ok(node(Kind::Columns, trees2(list(columns), list(constraints.with(constraint)))));
            } else {
                return Err(self.expected_here("',' or ')' after column definition"));
            }
        }
    }
}

/// What [`Parser::parse_column_def`] yields from the token at `i` on.
#[verifier::opaque]
pub open spec fn column_def(p: Input, i: int) -> Out<TreeView>
{
    match {
        match token_at(p, i) {
            Some(TokenView::Keyword(k)) => {
                let i = i + 1;
                Got(TreeView::Text(keyword_ident(k)), i)
            },
            Some(TokenView::Ident(s)) => {
                let i = i + 1;
                Got(TreeView::Text(s), i)
            },
            _ => {
                Failed(expected_at(p, i, "column name or constraint definition"@), i)
            },
        }
    } { Failed(e, i) => Failed(e, i), Got(name, i) => {
    match data_type(p, i) { Failed(e, i) => Failed(e, i), Got(data_type, i) => {
    match {
        if at_keyword(p, i, Keyword::COLLATE) {
            let i = i + 1;
            item_name(p, i)
        } else {
            Got(TreeView::Absent, i)
        }
    } { Failed(e, i) => Failed(e, i), Got(collation, i) => {
    match column_options(p, i, Seq::<TreeView>::empty()) { Failed(e, i) => Failed(e, i), Got(options, i) => {
    Got(TreeView::Node(Kind::ColumnDef, seq![name, data_type, collation, TreeView::List(options)]), i)
    }}
    }}
    }}
    }}
}

impl Parser {
    /// Parse a column's name, type, collation and options.
    pub fn parse_column_def(&mut self) -> (r: Result<Tree, Failure>)
        requires
            old(self).ready(),
        ensures
            final(self).follows(*old(self), column_def(old(self).input(), old(self).index as int), r),
            r is Ok ==> final(self).index > old(self).index,
            r matches Err(e) ==> !(e@ is Unhandled),
    {
        broadcast use group_tree_views;

        proof {
            reveal(column_def);
        }
        let name = match self.peek_token() {
            Some(Token::Keyword(k)) => {
                let _ = self.next_token();
                Tree::Text(k.into_ident())
            },
            Some(Token::Ident(s)) => {
                let _ = self.next_token();
                Tree::Text(s)
            },
            _ => {
                return Err(self.expected_here("column name or constraint definition"));
            },
        };
        let data_type = self.parse_data_type()?;
        let collation = if self.parse_keyword(Keyword::COLLATE) {
            self.parse_item_name()?
        } else {
            Tree::Absent
        };
        let options = self.parse_column_options(trees0())?;
        Ok(node(Kind::ColumnDef, trees4(name, data_type, collation, list(options))))
    }
}

/// What [`Parser::parse_column_options`] yields from the token at `i` on.
#[verifier::opaque]
pub open spec fn column_options(p: Input, i: int, options: Seq<TreeView>) -> Out<Seq<TreeView>>
    decreases p.toks.len() - i, 0int,
{
    match token_at(p, i) {
        None => {
            Got(options, i)
        },
        Some(TokenView::Comma) | Some(TokenView::RParen) => {
            Got(options, i)
        },
        _ => {
            match past(p, i, column_option_def(p, i)) { Failed(e, i) => Failed(e, i), Got(option, i) => {
            column_options(p, i, options.push(option))
            }}
        },
    }
}

impl Parser {
    /// Parse the options of a column that follow those in `options`.
    pub fn parse_column_options(&mut self, mut options: Trees) -> (r: Result<Trees, Failure>)
        requires
            old(self).ready(),
        ensures
            final(self).follows(*old(self), column_options(old(self).input(), old(self).index as int, options@), r),
            r matches Err(e) ==> !(e@ is Unhandled),
        decreases old(self).tokens.len() - old(self).index, 0int,
    {
        broadcast use group_tree_views;

        proof {
            reveal(column_options);
        }
        let ghost before = *self;
        let ghost goal = column_options(self.input(), self.index as int, options@);
        #[verifier::loop_isolation(false)]
        loop
            invariant
                self.ready(),
                self.input() == before.input(),
                self.tokens.len() == before.tokens.len(),
                before.index <= self.index,
                before == *old(self),
                column_options(self.input(), self.index as int, options@) == goal,
            decreases self.tokens.len() - self.index,
        {
            proof {
                reveal(column_options);
            }
            match self.peek_token() {
                None => {
                    return Ok(options);
                },
                Some(Token::Comma) | Some(Token::RParen) => {
                    return Ok(options);
                },
                _ => {
                    let option = self.parse_column_option_def()?;
                    options = options.with(option);
                    continue;
                },
            }
        }
    }
}

/// What [`Parser::parse_column_option_def`] yields from the token at `i` on.
#[verifier::opaque]
pub open spec fn column_option_def(p: Input, i: int) -> Out<TreeView>
{
    match {
        if at_keyword(p, i, Keyword::CONSTRAINT) {
            let i = i + 1;
            identifier(p, i)
        } else {
            Got(TreeView::Absent, i)
        }
    } { Failed(e, i) => Failed(e, i), Got(name, i) => {
    if at_keywords2(p, i, Keyword::NOT, Keyword::NULL) {
        let i = i + 2;
        Got(TreeView::Node(Kind::ColumnOptionDef, seq![name, TreeView::Node(Kind::NotNull, Seq::<TreeView>::empty())]), i)
    } else {
        if at_keyword(p, i, Keyword::NULL) {
            let i = i + 1;
            Got(TreeView::Node(Kind::ColumnOptionDef, seq![name, TreeView::Node(Kind::Null, Seq::<TreeView>::empty())]), i)
        } else {
            if at_keyword(p, i, Keyword::DEFAULT) {
                let i = i + 1;
                match expr(p, i) { Failed(e, i) => Failed(e, i), Got(e, i) => {
                Got(TreeView::Node(Kind::ColumnOptionDef, seq![name, TreeView::Node(Kind::DefaultValue, seq![e])]), i)
                }}
            } else {
                if at_keywords2(p, i, Keyword::PRIMARY, Keyword::KEY) {
                    let i = i + 2;
                    Got(TreeView::Node(Kind::ColumnOptionDef, seq![name, TreeView::Node(Kind::UniqueColumn, seq![TreeView::Flag(true)])]), i)
                } else {
                    if at_keyword(p, i, Keyword::UNIQUE) {
                        let i = i + 1;
                        Got(TreeView::Node(Kind::ColumnOptionDef, seq![name, TreeView::Node(Kind::UniqueColumn, seq![TreeView::Flag(false)])]), i)
                    } else {
                        if at_keyword(p, i, Keyword::REFERENCES) {
                            let i = i + 1;
                            match item_name(p, i) { Failed(e, i) => Failed(e, i), Got(foreign_table, i) => {
                            match parenthesized_column_list(p, i, false) { Failed(e, i) => Failed(e, i), Got(referred_columns, i) => {
                            Got(TreeView::Node(Kind::ColumnOptionDef, seq![name, TreeView::Node(Kind::ForeignKeyColumn, seq![foreign_table, referred_columns])]), i)
                            }}
                            }}
                        } else {
                            if at_keyword(p, i, Keyword::CHECK) {
                                let i = i + 1;
                                match token(p, i, TokenView::LParen) { Failed(e, i) => Failed(e, i), Got(_, i) => {
                                match expr(p, i) { Failed(e, i) => Failed(e, i), Got(e, i) => {
                                match token(p, i, TokenView::RParen) { Failed(e, i) => Failed(e, i), Got(_, i) => {
                                Got(TreeView::Node(Kind::ColumnOptionDef, seq![name, TreeView::Node(Kind::CheckColumn, seq![e])]), i)
                                }}
                                }}
                                }}
                            } else {
                                Failed(expected_at(p, i, "column option"@), i)
                            }
                        }
                    }
                }
            }
        }
    }
    }}
}

impl Parser {
    /// Parse an option of a column.
    #[verifier::rlimit(30)]
    pub fn parse_column_option_def(&mut self) -> (r: Result<Tree, Failure>)
        requires
            old(self).ready(),
        ensures
            final(self).follows(*old(self), column_option_def(old(self).input(), old(self).index as int), r),
            r is Ok ==> final(self).index > old(self).index,
            r matches Err(e) ==> !(e@ is Unhandled),
    {
        broadcast use group_tree_views;

        proof {
            reveal(column_option_def);
        }
        let name = if self.parse_keyword(Keyword::CONSTRAINT) {
            self.parse_identifier()?
        } else {
            Tree::Absent
        };
        if self.parse_keywords2(Keyword::NOT, Keyword::NULL) {
            Ok(node(Kind::ColumnOptionDef, trees2(name, node(Kind::NotNull, trees0()))))
        } else if self.parse_keyword(Keyword::NULL) {
            Ok(node(Kind::ColumnOptionDef, trees2(name, node(Kind::Null, trees0()))))
        } else if self.parse_keyword(Keyword::DEFAULT) {
            let e = self.parse_expr()?;
            Ok(node(Kind::ColumnOptionDef, trees2(name, node(Kind::DefaultValue, trees1(e)))))
        } else if self.parse_keywords2(Keyword::PRIMARY, Keyword::KEY) {
            Ok(node(Kind::ColumnOptionDef, trees2(name, node(Kind::UniqueColumn, trees1(Tree::Flag(true))))))
        } else if self.parse_keyword(Keyword::UNIQUE) {
            Ok(node(Kind::ColumnOptionDef, trees2(name, node(Kind::UniqueColumn, trees1(Tree::Flag(false))))))
        } else if self.parse_keyword(Keyword::REFERENCES) {
            let foreign_table = self.parse_item_name()?;
            let referred_columns = self.parse_parenthesized_column_list(false)?;
            Ok(node(Kind::ColumnOptionDef, trees2(name, node(Kind::ForeignKeyColumn, trees2(foreign_table, referred_columns)))))
        } else if self.parse_keyword(Keyword::CHECK) {
            self.expect_token(&Token::LParen)?;
            let e = self.parse_expr()?;
            self.expect_token(&Token::RParen)?;
            Ok(node(Kind::ColumnOptionDef, trees2(name, node(Kind::CheckColumn, trees1(e)))))
        } else {
            Err(self.expected_here("column option"))
        }
    }
}

/// What [`Parser::parse_optional_table_constraint`] yields from the token at `i` on.
#[verifier::opaque]
pub open spec fn optional_table_constraint(p: Input, i: int) -> Out<TreeView>
{
    match {
        if at_keyword(p, i, Keyword::CONSTRAINT) {
            let i = i + 1;
            identifier(p, i)
        } else {
            Got(TreeView::Absent, i)
        }
    } { Failed(e, i) => Failed(e, i), Got(name, i) => {
    let found = token_at(p, i);
    let i = i + 1;
    match found {
        Some(TokenView::Keyword(Keyword::PRIMARY)) => {
            match keyword(p, i, Keyword::KEY) { Failed(e, i) => Failed(e, i), Got(_, i) => {
            match parenthesized_column_list(p, i, false) { Failed(e, i) => Failed(e, i), Got(columns, i) => {
            Got(TreeView::Node(Kind::UniqueConstraint, seq![name, columns, TreeView::Flag(true), TreeView::Flag(false)]), i)
            }}
            }}
        },
        Some(TokenView::Keyword(Keyword::UNIQUE)) => {
            match {
                if at_keyword(p, i, Keyword::NULLS) {
                    let i = i + 1;
                    match keyword(p, i, Keyword::NOT) { Failed(e, i) => Failed(e, i), Got(_, i) => {
                    match keyword(p, i, Keyword::DISTINCT) { Failed(e, i) => Failed(e, i), Got(_, i) => {
                    Got(true, i)
                    }}}}
                } else {
                    Got(false, i)
                }
            } { Failed(e, i) => Failed(e, i), Got(nulls_not_distinct, i) => {
            match parenthesized_column_list(p, i, false) { Failed(e, i) => Failed(e, i), Got(columns, i) => {
            Got(TreeView::Node(Kind::UniqueConstraint, seq![name, columns, TreeView::Flag(false), TreeView::Flag(nulls_not_distinct)]), i)
            }}
            }}
        },
        Some(TokenView::Keyword(Keyword::FOREIGN)) => {
            match keyword(p, i, Keyword::KEY) { Failed(e, i) => Failed(e, i), Got(_, i) => {
            match parenthesized_column_list(p, i, false) { Failed(e, i) => Failed(e, i), Got(columns, i) => {
            match keyword(p, i, Keyword::REFERENCES) { Failed(e, i) => Failed(e, i), Got(_, i) => {
            match raw_name(p, i) { Failed(e, i) => Failed(e, i), Got(foreign_table, i) => {
            match parenthesized_column_list(p, i, false) { Failed(e, i) => Failed(e, i), Got(referred_columns, i) => {
            Got(TreeView::Node(Kind::ForeignKeyConstraint, seq![name, columns, foreign_table, referred_columns]), i)
            }}
            }}
            }}
            }}
            }}
        },
        Some(TokenView::Keyword(Keyword::CHECK)) => {
            match token(p, i, TokenView::LParen) { Failed(e, i) => Failed(e, i), Got(_, i) => {
            match expr(p, i) { Failed(e, i) => Failed(e, i), Got(e, i) => {
            match token(p, i, TokenView::RParen) { Failed(e, i) => Failed(e, i), Got(_, i) => {
            Got(TreeView::Node(Kind::CheckConstraint, seq![name, e]), i)
            }}
            }}
            }}
        },
        _ => {
            if name is Absent {
                let i = i - 1;
                Got(TreeView::Absent, i)
            } else {
                Failed(expected_at(p, i - 1, "PRIMARY, UNIQUE, FOREIGN, or CHECK"@), i)
            }
        },
    }
    }}
}

impl Parser {
    /// Parse a table constraint, if there is one.
    #[verifier::rlimit(60)]
    pub fn parse_optional_table_constraint(&mut self) -> (r: Result<Tree, Failure>)
        requires
            old(self).ready(),
        ensures
            final(self).follows(*old(self), optional_table_constraint(old(self).input(), old(self).index as int), r),
            r matches Err(e) ==> !(e@ is Unhandled),
    {
        broadcast use group_tree_views;

        proof {
            reveal(optional_table_constraint);
        }
        let name = if self.parse_keyword(Keyword::CONSTRAINT) {
            self.parse_identifier()?
        } else {
            Tree::Absent
        };
        match self.next_token() {
            Some(Token::Keyword(Keyword::PRIMARY)) => {
                self.expect_keyword(Keyword::KEY)?;
                let columns = self.parse_parenthesized_column_list(false)?;
                Ok(node(Kind::UniqueConstraint, trees4(name, columns, Tree::Flag(true), Tree::Flag(false))))
            },
            Some(Token::Keyword(Keyword::UNIQUE)) => {
                let nulls_not_distinct = if self.parse_keyword(Keyword::NULLS) {
                    self.expect_keyword(Keyword::NOT)?;
                    self.expect_keyword(Keyword::DISTINCT)?;
                    true
                } else {
                    false
                };
                let columns = self.parse_parenthesized_column_list(false)?;
                Ok(node(Kind::UniqueConstraint, trees4(name, columns, Tree::Flag(false), Tree::Flag(nulls_not_distinct))))
            },
            Some(Token::Keyword(Keyword::FOREIGN)) => {
                self.expect_keyword(Keyword::KEY)?;
                let columns = self.parse_parenthesized_column_list(false)?;
                self.expect_keyword(Keyword::REFERENCES)?;
                let foreign_table = self.parse_raw_name()?;
                let referred_columns = self.parse_parenthesized_column_list(false)?;
                Ok(node(Kind::ForeignKeyConstraint, trees4(name, columns, foreign_table, referred_columns)))
            },
            Some(Token::Keyword(Keyword::CHECK)) => {
                self.expect_token(&Token::LParen)?;
                let e = self.parse_expr()?;
                self.expect_token(&Token::RParen)?;
                Ok(node(Kind::CheckConstraint, trees2(name, e)))
            },
            _ => {
                if name.is_absent() {
                    self.prev_token();
                    Ok(Tree::Absent)
                } else {
                    Err(self.expected_prev("PRIMARY, UNIQUE, FOREIGN, or CHECK"))
                }
            },
        }
    }
}

} // verus!
