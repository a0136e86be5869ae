//! What sources, sinks, clusters and types come to.

use vstd::prelude::*;

use crate::sql_parser::alignment::names::{unfold_array_expr, unfold_map_type, unfold_type_suffixes};
use crate::sql_parser::checks::is_node;
use crate::sql_parser::commands::{bare, lemma_one_of};
use crate::sql_parser::create::{
    create_cluster_replica, create_sink, create_sink_connection, create_type, create_type_list_option_list,
    create_type_map_option_list, csv_header, envelope, if_not_exists, key_constraint, raw_ident,
    replica_definition, replica_option_list, source_metadata,
};
use crate::sql_parser::expr::composite_type_definition;
use crate::sql_parser::keywords::Keyword;
use crate::sql_parser::kind::Kind;
use crate::sql_parser::names::{
    array_bound, array_elements, array_expr, data_type, identifier, item_name, literal_string, literal_uint,
    map_type, number_value, parenthesized_column_list, raw_name, type_suffixes,
};
use crate::sql_parser::outcome::Out::{Failed, Got};
use crate::sql_parser::parser::{at_keyword, at_token, one_of, Input};
use crate::sql_parser::query::query;
use crate::sql_parser::show::{optional_in_cluster, plural_object_type};
use crate::sql_parser::syntax::TreeView;
use crate::sql_parser::token::TokenView;

verus! {

/// The encoding of a source is the one that is named.
pub proof fn law_formats_read(p: Input, i: int, s: Seq<char>)
    ensures
        at_keyword(p, i, Keyword::REGEX) && at_token(p, i + 1, TokenView::String(s))
            ==> crate::sql_parser::create::format(p, i) == Got::<TreeView>(
            TreeView::Node(Kind::RegexFormat, seq![TreeView::Text(s)]),
            i + 2,
        ),
        at_keyword(p, i, Keyword::JSON) ==> crate::sql_parser::create::format(p, i) == Got::<TreeView>(
            bare(Kind::JsonFormat),
            i + 1,
        ),
        at_keyword(p, i, Keyword::TEXT) ==> crate::sql_parser::create::format(p, i) == Got::<TreeView>(
            bare(Kind::TextFormat),
            i + 1,
        ),
        at_keyword(p, i, Keyword::BYTES) ==> crate::sql_parser::create::format(p, i) == Got::<TreeView>(
            bare(Kind::BytesFormat),
            i + 1,
        ),
{
    reveal(crate::sql_parser::create::format);
    reveal(literal_string);
}

/// Values between commas have as many columns as are counted, or those that a header names; a
/// delimiter of one byte may take the place of the comma.
pub proof fn law_csv_read(p: Input, i: int, n: u64, j: int, cs: TreeView, d: Seq<char>)
    requires
        at_keyword(p, i, Keyword::CSV),
        at_keyword(p, i + 1, Keyword::WITH),
    ensures
        !at_keyword(p, i + 2, Keyword::HEADER) && !at_keyword(p, i + 2, Keyword::HEADERS) && literal_uint(p, i + 2)
            == Got::<u64>(n, j) && at_keyword(p, j, Keyword::COLUMNS) && !at_keyword(p, j + 1, Keyword::DELIMITED)
            ==> crate::sql_parser::create::format(p, i) == Got::<TreeView>(
            TreeView::Node(
                Kind::CsvFormat,
                seq![TreeView::Node(Kind::CsvCount, seq![TreeView::Num(n)]), TreeView::Text(","@)],
            ),
            j + 1,
        ),
        (at_keyword(p, i + 2, Keyword::HEADER) || at_keyword(p, i + 2, Keyword::HEADERS))
            && parenthesized_column_list(p, i + 3, false) == Got::<TreeView>(cs, j) && at_keyword(
            p,
            j,
            Keyword::DELIMITED,
        ) && at_keyword(p, j + 1, Keyword::BY) && at_token(p, j + 2, TokenView::String(d)) && d.len() == 1 && (
        d[0] as u32) < 128 ==> crate::sql_parser::create::format(p, i) == Got::<TreeView>(
            TreeView::Node(
                Kind::CsvFormat,
                seq![TreeView::Node(Kind::CsvHeader, seq![cs]), TreeView::Text(d)],
            ),
            j + 3,
        ),
{
    reveal(crate::sql_parser::create::format);
    reveal(literal_string);
    reveal(csv_header);
}

/// The envelope of a source is the one that is named.
pub proof fn law_envelopes_read(p: Input, i: int)
    ensures
        at_keyword(p, i, Keyword::NONE) ==> envelope(p, i) == Got::<TreeView>(bare(Kind::NoneEnvelope), i + 1),
        at_keyword(p, i, Keyword::DEBEZIUM) ==> envelope(p, i) == Got::<TreeView>(
            bare(Kind::DebeziumEnvelope),
            i + 1,
        ),
        at_keyword(p, i, Keyword::UPSERT) ==> envelope(p, i) == Got::<TreeView>(
            bare(Kind::UpsertEnvelope),
            i + 1,
        ),
        at_keyword(p, i, Keyword::MATERIALIZE) ==> envelope(p, i) == Got::<TreeView>(
            bare(Kind::CdcV2Envelope),
            i + 1,
        ),
{
    reveal(envelope);
}

/// What a source adds to its rows is what is named, under the name behind `AS` or its own.
pub proof fn law_source_metadata_read(p: Input, i: int, k: Keyword, n: TreeView, e: int)
    requires
        k == Keyword::KEY || k == Keyword::TIMESTAMP || k == Keyword::PARTITION || k == Keyword::TOPIC || k
            == Keyword::OFFSET || k == Keyword::HEADERS,
        at_keyword(p, i, k),
    ensures
        ({
            let what = bare(
                match k {
                    Keyword::KEY => Kind::KeyMetadata,
                    Keyword::TIMESTAMP => Kind::TimestampMetadata,
                    Keyword::PARTITION => Kind::PartitionMetadata,
                    Keyword::TOPIC => Kind::TopicMetadata,
                    Keyword::OFFSET => Kind::OffsetMetadata,
                    _ => Kind::HeadersMetadata,
                },
            );
            &&& at_keyword(p, i + 1, Keyword::AS) && identifier(p, i + 2) == Got::<TreeView>(n, e)
                ==> source_metadata(p, i) == Got::<TreeView>(
                TreeView::Node(Kind::SourceIncludeMetadata, seq![what, n]),
                e,
            )
            &&& !at_keyword(p, i + 1, Keyword::AS) ==> source_metadata(p, i) == Got::<TreeView>(
                TreeView::Node(Kind::SourceIncludeMetadata, seq![what, TreeView::Absent]),
                i + 1,
            )
        }),
{
    let ks = seq![
        Keyword::KEY,
        Keyword::TIMESTAMP,
        Keyword::PARTITION,
        Keyword::TOPIC,
        Keyword::OFFSET,
        Keyword::HEADERS,
    ];
    assert(ks[0] == Keyword::KEY && ks[1] == Keyword::TIMESTAMP && ks[2] == Keyword::PARTITION && ks[3]
        == Keyword::TOPIC && ks[4] == Keyword::OFFSET && ks[5] == Keyword::HEADERS);
    assert(ks.contains(k));
    reveal(source_metadata);
}

/// A key that is not enforced has the columns that are listed.
pub proof fn law_key_constraint_read(p: Input, i: int, cs: TreeView, j: int)
    ensures
        at_keyword(p, i, Keyword::PRIMARY) && at_keyword(p, i + 1, Keyword::KEY) && parenthesized_column_list(
            p,
            i + 2,
            false,
        ) == Got::<TreeView>(cs, j) && at_keyword(p, j, Keyword::NOT) && at_keyword(p, j + 1, Keyword::ENFORCED)
            ==> key_constraint(p, i) == Got::<TreeView>(
            TreeView::Node(Kind::PrimaryKeyNotEnforced, seq![cs]),
            j + 2,
        ),
        !at_keyword(p, i, Keyword::PRIMARY) ==> key_constraint(p, i) == Got::<TreeView>(TreeView::Absent, i),
{
    reveal(key_constraint);
}

/// A sink takes what is named behind `FROM` to the connection behind `INTO`.
pub proof fn law_sink_read(
    p: Input,
    i: int,
    conditional: bool,
    j: int,
    n: TreeView,
    k: int,
    t: TreeView,
    l: int,
    c: TreeView,
    e: int,
)
    requires
        at_keyword(p, i, Keyword::SINK),
        if_not_exists(p, i + 1) == Got::<bool>(conditional, j),
        item_name(p, j) == Got::<TreeView>(n, k),
        at_keyword(p, k, Keyword::FROM),
        raw_name(p, k + 1) == Got::<TreeView>(t, l),
        at_keyword(p, l, Keyword::INTO),
        create_sink_connection(p, l + 1) == Got::<TreeView>(c, e),
        !at_keyword(p, e, Keyword::FORMAT),
        !at_keyword(p, e, Keyword::ENVELOPE),
        !at_keyword(p, e, Keyword::WITH),
    ensures
        create_sink(p, i) == Got::<TreeView>(
            TreeView::Node(
                Kind::CreateSink,
                seq![
                    n,
                    TreeView::Absent,
                    t,
                    c,
                    TreeView::Absent,
                    TreeView::Absent,
                    TreeView::Flag(conditional),
                    TreeView::List(Seq::<TreeView>::empty()),
                ],
            ),
            e,
        ),
{
    reveal(create_sink);
    reveal(optional_in_cluster);
}

/// A type is made as a list, as a map, or as a record.
pub proof fn law_create_type_read(p: Input, i: int, n: TreeView, j: int, os: Seq<TreeView>, e: int)
    requires
        at_keyword(p, i, Keyword::TYPE),
        item_name(p, i + 1) == Got::<TreeView>(n, j),
        at_keyword(p, j, Keyword::AS),
    ensures
        at_keyword(p, j + 1, Keyword::LIST) && at_token(p, j + 2, TokenView::LParen)
            && create_type_list_option_list(p, j + 3, Seq::<TreeView>::empty()) == Got::<Seq<TreeView>>(os, e)
            && at_token(p, e, TokenView::RParen) ==> create_type(p, i) == Got::<TreeView>(
            TreeView::Node(Kind::CreateType, seq![n, TreeView::Node(Kind::AsList, seq![TreeView::List(os)])]),
            e + 1,
        ),
        at_keyword(p, j + 1, Keyword::MAP) && at_token(p, j + 2, TokenView::LParen)
            && create_type_map_option_list(p, j + 3, Seq::<TreeView>::empty()) == Got::<Seq<TreeView>>(os, e)
            && at_token(p, e, TokenView::RParen) ==> create_type(p, i) == Got::<TreeView>(
            TreeView::Node(Kind::CreateType, seq![n, TreeView::Node(Kind::AsMap, seq![TreeView::List(os)])]),
            e + 1,
        ),
        at_token(p, j + 1, TokenView::LParen) && composite_type_definition(p, j + 1) == Got::<Seq<TreeView>>(
            os,
            e,
        ) ==> create_type(p, i) == Got::<TreeView>(
            TreeView::Node(Kind::CreateType, seq![n, TreeView::Node(Kind::AsRecord, seq![TreeView::List(os)])]),
            e,
        ),
{
    let ks = seq![Keyword::LIST, Keyword::MAP];
    assert(ks[0] == Keyword::LIST && ks[1] == Keyword::MAP);
    if at_keyword(p, j + 1, Keyword::LIST) {
        lemma_one_of(p, j + 1, ks, 0);
    }
    if at_keyword(p, j + 1, Keyword::MAP) {
        lemma_one_of(p, j + 1, ks, 1);
    }
    reveal(create_type);
}

/// A replica belongs to the cluster before the dot and has the name behind it.
pub proof fn law_replica_read(p: Input, i: int, c: TreeView, j: int, n: TreeView, k: int, os: Seq<TreeView>, e: int)
    ensures
        at_keyword(p, i, Keyword::REPLICA) && identifier(p, i + 1) == Got::<TreeView>(c, j) && at_token(
            p,
            j,
            TokenView::Dot,
        ) && identifier(p, j + 1) == Got::<TreeView>(n, k) && replica_option_list(p, k, Seq::<TreeView>::empty())
            == Got::<Seq<TreeView>>(os, e) ==> create_cluster_replica(p, i) == Got::<TreeView>(
            TreeView::Node(
                Kind::CreateClusterReplica,
                seq![c, TreeView::Node(Kind::ReplicaDefinition, seq![n, TreeView::List(os)])],
            ),
            e,
        ),
        identifier(p, i) == Got::<TreeView>(n, j) && at_token(p, j, TokenView::LParen) && replica_option_list(
            p,
            j + 1,
            Seq::<TreeView>::empty(),
        ) == Got::<Seq<TreeView>>(os, e) && at_token(p, e, TokenView::RParen) ==> replica_definition(p, i)
            == Got::<TreeView>(TreeView::Node(Kind::ReplicaDefinition, seq![n, TreeView::List(os)]), e + 1),
{
    reveal(create_cluster_replica);
    reveal(replica_definition);
}

/// A cluster is named by its name, or by its number in brackets.
pub proof fn law_cluster_named(p: Input, i: int, s: Seq<char>, c: TreeView, e: int)
    ensures
        !at_keyword(p, i, Keyword::IN) ==> optional_in_cluster(p, i) == Got::<TreeView>(TreeView::Absent, i),
        at_keyword(p, i, Keyword::IN) && at_keyword(p, i + 1, Keyword::CLUSTER) ==> optional_in_cluster(p, i)
            == raw_ident(p, i + 2),
        at_token(p, i, TokenView::LBracket) && (at_token(p, i + 1, TokenView::Number(s)) || at_token(
            p,
            i + 1,
            TokenView::Ident(s),
        )) && at_token(p, i + 2, TokenView::RBracket) ==> raw_ident(p, i) == Got::<TreeView>(
            TreeView::Node(Kind::ResolvedCluster, seq![TreeView::Text(s)]),
            i + 3,
        ),
        !at_token(p, i, TokenView::LBracket) && identifier(p, i) == Got::<TreeView>(c, e) ==> raw_ident(p, i)
            == Got::<TreeView>(TreeView::Node(Kind::UnresolvedCluster, seq![c]), e),
{
    reveal(optional_in_cluster);
    reveal(raw_ident);
}

/// `t LIST` is a list of `t`, and `t[]` an array of `t`; an array of arrays is an array.
pub proof fn law_type_suffixes_read(p: Input, i: int, t: TreeView)
    requires
        0 <= i,
    ensures
        at_keyword(p, i, Keyword::LIST) ==> type_suffixes(p, i, t) == type_suffixes(
            p,
            i + 1,
            TreeView::Node(Kind::ListType, seq![t]),
        ),
        at_token(p, i, TokenView::LBracket) && number_value(p, i + 1) is Failed && at_token(
            p,
            i + 1,
            TokenView::RBracket,
        ) ==> type_suffixes(p, i, t) == type_suffixes(
            p,
            i + 2,
            if is_node(t, Kind::ArrayType) {
                t
            } else {
                TreeView::Node(Kind::ArrayType, seq![t])
            },
        ),
        !at_keyword(p, i, Keyword::LIST) && !at_token(p, i, TokenView::LBracket) ==> type_suffixes(p, i, t)
            == Got::<TreeView>(t, i),
{
    reveal(array_bound);
    unfold_type_suffixes(p, i, t);
}

/// `MAP[k => v]` maps keys of type `k` to values of type `v`.
pub proof fn law_map_type_read(p: Input, i: int, k: TreeView, j: int, v: TreeView, e: int)
    requires
        0 <= i,
        at_token(p, i, TokenView::LBracket),
        data_type(p, i + 1) == Got::<TreeView>(k, j),
        i + 1 < j <= p.toks.len(),
        at_token(p, j, TokenView::Op("=>"@)),
        data_type(p, j + 1) == Got::<TreeView>(v, e),
        at_token(p, e, TokenView::RBracket),
    ensures
        map_type(p, i) == Got::<TreeView>(TreeView::Node(Kind::MapType, seq![k, v]), e + 1),
{
    unfold_map_type(p, i);
}

/// An array is made of its elements, or of the rows of a query.
pub proof fn law_array_read(p: Input, i: int, q: TreeView, es: Seq<TreeView>, e: int)
    requires
        0 <= i,
    ensures
        at_token(p, i, TokenView::LParen) && query(p, i + 1) == Got::<TreeView>(q, e) && at_token(
            p,
            e,
            TokenView::RParen,
        ) ==> array_expr(p, i) == Got::<TreeView>(TreeView::Node(Kind::ArraySubquery, seq![q]), e + 1),
        at_token(p, i, TokenView::LBracket) && array_elements(p, i + 1, Seq::<TreeView>::empty()) == Got::<
            Seq<TreeView>,
        >(es, e) && at_token(p, e, TokenView::RBracket) ==> array_expr(p, i) == Got::<TreeView>(
            TreeView::Node(Kind::Array, seq![TreeView::List(es)]),
            e + 1,
        ),
{
    unfold_array_expr(p, i);
}

/// What kind of objects a plural names.
pub open spec fn named_kind(k: Keyword) -> Option<Kind> {
    match k {
        Keyword::TABLES => Some(Kind::TableType),
        Keyword::VIEWS => Some(Kind::ViewType),
        Keyword::SOURCES => Some(Kind::SourceType),
        Keyword::SINKS => Some(Kind::SinkType),
        Keyword::INDEXES => Some(Kind::IndexType),
        Keyword::TYPES => Some(Kind::TypeType),
        Keyword::ROLES | Keyword::USERS => Some(Kind::RoleType),
        Keyword::CLUSTERS => Some(Kind::ClusterType),
        Keyword::SECRETS => Some(Kind::SecretType),
        Keyword::CONNECTIONS => Some(Kind::ConnectionType),
        Keyword::DATABASES => Some(Kind::DatabaseType),
        Keyword::SCHEMAS => Some(Kind::SchemaType),
        _ => None,
    }
}

/// A plural names the kind of objects that it is the plural of.
pub proof fn law_plurals_read(p: Input, i: int, k: Keyword)
    ensures
        named_kind(k) is Some && at_keyword(p, i, k) ==> plural_object_type(p, i) == Got::<Kind>(
            named_kind(k)->0,
            i + 1,
        ),
        at_keyword(p, i, Keyword::MATERIALIZED) && at_keyword(p, i + 1, Keyword::VIEWS) ==> plural_object_type(p, i)
            == Got::<Kind>(Kind::MaterializedViewType, i + 2),
        at_keyword(p, i, Keyword::CLUSTER) && at_keyword(p, i + 1, Keyword::REPLICAS) ==> plural_object_type(p, i)
            == Got::<Kind>(Kind::ClusterReplicaType, i + 2),
        at_keyword(p, i, Keyword::CLUSTER) && !at_keyword(p, i + 1, Keyword::REPLICAS) ==> plural_object_type(p, i)
            == Got::<Kind>(Kind::NoType, i),
{
    let ks = seq![
        Keyword::TABLES,
        Keyword::VIEWS,
        Keyword::MATERIALIZED,
        Keyword::SOURCES,
        Keyword::SINKS,
        Keyword::INDEXES,
        Keyword::TYPES,
        Keyword::ROLES,
        Keyword::USERS,
        Keyword::CLUSTER,
        Keyword::CLUSTERS,
        Keyword::SECRETS,
        Keyword::CONNECTIONS,
        Keyword::DATABASES,
        Keyword::SCHEMAS,
    ];
    assert(ks[0] == Keyword::TABLES && ks[1] == Keyword::VIEWS && ks[2] == Keyword::MATERIALIZED && ks[3]
        == Keyword::SOURCES && ks[4] == Keyword::SINKS && ks[5] == Keyword::INDEXES && ks[6] == Keyword::TYPES
        && ks[7] == Keyword::ROLES && ks[8] == Keyword::USERS && ks[9] == Keyword::CLUSTER && ks[10]
        == Keyword::CLUSTERS && ks[11] == Keyword::SECRETS && ks[12] == Keyword::CONNECTIONS && ks[13]
        == Keyword::DATABASES && ks[14] == Keyword::SCHEMAS);
    if named_kind(k) is Some && at_keyword(p, i, k) {
        assert(ks.contains(k));
        assert(one_of(p, i, ks) == Some(k));
    }
    assert(ks.contains(Keyword::MATERIALIZED) && ks.contains(Keyword::CLUSTER));
    reveal(plural_object_type);
}

} // verus!
