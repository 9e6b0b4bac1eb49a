//! A gene record as the genome browsers describe it.
use vstd::prelude::*;
use vstd::string::*;
use crate::number::{decimal, display_number, display_signed, signed_decimal};

verus! {

/// A gene record: every field is kept as the text that the browser gave,
/// or empty where it gave none.
#[derive(Clone)]
pub struct Gene {
    assembly_name: String,
    biotype: String,
    canonical_transcript: String,
    db_type: String,
    description: String,
    display_name: String,
    dna: String,
    end: String,
    id: String,
    logic_name: String,
    object_type: String,
    seq_region_name: String,
    source: String,
    species: String,
    start: String,
    strand: String,
    version: String,
}

/// The fields of a gene record, as texts.
pub struct GeneView {
    pub assembly_name: Seq<char>,
    pub biotype: Seq<char>,
    pub canonical_transcript: Seq<char>,
    pub db_type: Seq<char>,
    pub description: Seq<char>,
    pub display_name: Seq<char>,
    pub dna: Seq<char>,
    pub end: Seq<char>,
    pub id: Seq<char>,
    pub logic_name: Seq<char>,
    pub object_type: Seq<char>,
    pub seq_region_name: Seq<char>,
    pub source: Seq<char>,
    pub species: Seq<char>,
    pub start: Seq<char>,
    pub strand: Seq<char>,
    pub version: Seq<char>,
}

impl View for Gene {
    type V = GeneView;

    closed spec fn view(&self) -> GeneView {
        GeneView {
            assembly_name: self.assembly_name@,
            biotype: self.biotype@,
            canonical_transcript: self.canonical_transcript@,
            db_type: self.db_type@,
            description: self.description@,
            display_name: self.display_name@,
            dna: self.dna@,
            end: self.end@,
            id: self.id@,
            logic_name: self.logic_name@,
            object_type: self.object_type@,
            seq_region_name: self.seq_region_name@,
            source: self.source@,
            species: self.species@,
            start: self.start@,
            strand: self.strand@,
            version: self.version@,
        }
    }
}

impl Gene {
    pub fn new(
        assembly_name: &str,
        biotype: &str,
        canonical_transcript: &str,
        db_type: &str,
        description: &str,
        display_name: &str,
        dna: &str,
        end: &str,
        id: &str,
        logic_name: &str,
        object_type: &str,
        seq_region_name: &str,
        source: &str,
        species: &str,
        start: &str,
        strand: &str,
        version: &str,
    ) -> (r: Gene)
        ensures
            r@.assembly_name == assembly_name@,
            r@.biotype == biotype@,
            r@.canonical_transcript == canonical_transcript@,
            r@.db_type == db_type@,
            r@.description == description@,
            r@.display_name == display_name@,
            r@.dna == dna@,
            r@.end == end@,
            r@.id == id@,
            r@.logic_name == logic_name@,
            r@.object_type == object_type@,
            r@.seq_region_name == seq_region_name@,
            r@.source == source@,
            r@.species == species@,
            r@.start == start@,
            r@.strand == strand@,
            r@.version == version@,
    {
        Gene {
            assembly_name: String::from_str(assembly_name),
            biotype: String::from_str(biotype),
            canonical_transcript: String::from_str(canonical_transcript),
            db_type: String::from_str(db_type),
            description: String::from_str(description),
            display_name: String::from_str(display_name),
            dna: String::from_str(dna),
            end: String::from_str(end),
            id: String::from_str(id),
            logic_name: String::from_str(logic_name),
            object_type: String::from_str(object_type),
            seq_region_name: String::from_str(seq_region_name),
            source: String::from_str(source),
            species: String::from_str(species),
            start: String::from_str(start),
            strand: String::from_str(strand),
            version: String::from_str(version),
        }
    }

    pub fn get_assembly_name(&self) -> (r: &str)
        ensures
            r@ == self@.assembly_name,
    {
        self.assembly_name.as_str()
    }

    pub fn get_biotype(&self) -> (r: &str)
        ensures
            r@ == self@.biotype,
    {
        self.biotype.as_str()
    }

    pub fn get_canonical_transcript(&self) -> (r: &str)
        ensures
            r@ == self@.canonical_transcript,
    {
        self.canonical_transcript.as_str()
    }

    pub fn get_db_type(&self) -> (r: &str)
        ensures
            r@ == self@.db_type,
    {
        self.db_type.as_str()
    }

    pub fn get_description(&self) -> (r: &str)
        ensures
            r@ == self@.description,
    {
        self.description.as_str()
    }

    pub fn get_display_name(&self) -> (r: &str)
        ensures
            r@ == self@.display_name,
    {
        self.display_name.as_str()
    }

    pub fn get_dna(&self) -> (r: &str)
        ensures
            r@ == self@.dna,
    {
        self.dna.as_str()
    }

    pub fn get_end(&self) -> (r: &str)
        ensures
            r@ == self@.end,
    {
        self.end.as_str()
    }

    pub fn get_id(&self) -> (r: &str)
        ensures
            r@ == self@.id,
    {
        self.id.as_str()
    }

    pub fn get_logic_name(&self) -> (r: &str)
        ensures
            r@ == self@.logic_name,
    {
        self.logic_name.as_str()
    }

    pub fn get_object_type(&self) -> (r: &str)
        ensures
            r@ == self@.object_type,
    {
        self.object_type.as_str()
    }

    pub fn get_seq_region_name(&self) -> (r: &str)
        ensures
            r@ == self@.seq_region_name,
    {
        self.seq_region_name.as_str()
    }

    pub fn get_source(&self) -> (r: &str)
        ensures
            r@ == self@.source,
    {
        self.source.as_str()
    }

    pub fn get_species(&self) -> (r: &str)
        ensures
            r@ == self@.species,
    {
        self.species.as_str()
    }

    pub fn get_start(&self) -> (r: &str)
        ensures
            r@ == self@.start,
    {
        self.start.as_str()
    }

    pub fn get_strand(&self) -> (r: &str)
        ensures
            r@ == self@.strand,
    {
        self.strand.as_str()
    }

    pub fn get_version(&self) -> (r: &str)
        ensures
            r@ == self@.version,
    {
        self.version.as_str()
    }
}

/// Where the Ensembl REST service answers.
pub const ENSEMBL_BASE_URL: &'static str = "https://rest.ensembl.org";

/// Where the UCSC Genome Browser's REST service answers.
pub const UCSC_GENOME_BASE_URL: &'static str = "https://api.genome.ucsc.edu";

/// How many requests the Ensembl service takes from one client in a day.
pub const ENSEMBL_DAILY_REQUEST_LIMIT: u32 = 5000;

/// A gene record together with when it was fetched.
pub struct GenomeBrowserResponse {
    pub gene: Gene,
    /// When the record was fetched, in milliseconds since the Unix epoch.
    pub timestamp: u64,
}

/// One field of a parsed lookup document, reduced to what a gene record
/// reads of it.
pub enum FieldValue {
    /// A string.
    Text(String),
    /// A number, with its value as a `u64` and as an `i64` where it has one.
    Number(Option<u64>, Option<i64>),
    /// Anything else, or no value at all.
    Other,
}

/// The fields of an Ensembl lookup document that make a gene record.
pub struct LookupRecord {
    pub assembly_name: FieldValue,
    pub biotype: FieldValue,
    pub canonical_transcript: FieldValue,
    pub db_type: FieldValue,
    pub description: FieldValue,
    pub display_name: FieldValue,
    pub end: FieldValue,
    pub id: FieldValue,
    pub logic_name: FieldValue,
    pub object_type: FieldValue,
    pub seq_region_name: FieldValue,
    pub source: FieldValue,
    pub species: FieldValue,
    pub start: FieldValue,
    pub strand: FieldValue,
    pub version: FieldValue,
}

/// The text of a string field; empty for anything else.
pub open spec fn text_of(v: FieldValue) -> Seq<char> {
    match v {
        FieldValue::Text(t) => t@,
        _ => Seq::empty(),
    }
}

/// The decimal text of a field that holds a `u64`; empty for anything else.
pub open spec fn unsigned_text_of(v: FieldValue) -> Seq<char> {
    match v {
        FieldValue::Number(Some(u), _) => decimal(u as nat),
        _ => Seq::empty(),
    }
}

/// A field that may be a name or a number (a chromosome): a string as it
/// is, a number by its `u64` value.
pub open spec fn region_text_of(v: FieldValue) -> Seq<char> {
    match v {
        FieldValue::Text(t) => t@,
        FieldValue::Number(Some(u), _) => decimal(u as nat),
        _ => Seq::empty(),
    }
}

/// A field that may be a string or a signed number (a strand): a string as
/// it is, a number by its `i64` value.
pub open spec fn strand_text_of(v: FieldValue) -> Seq<char> {
    match v {
        FieldValue::Text(t) => t@,
        FieldValue::Number(_, Some(i)) => signed_decimal(i as int),
        _ => Seq::empty(),
    }
}

/// The text of a string field, or an empty text.
pub fn text_field(v: &FieldValue) -> (r: String)
    ensures
        r@ == text_of(*v),
{
    match v {
        FieldValue::Text(t) => t.clone(),
        _ => String::new(),
    }
}

/// The decimal text of a `u64` field, or an empty text.
pub fn unsigned_field(v: &FieldValue) -> (r: String)
    ensures
        r@ == unsigned_text_of(*v),
{
    match v {
        FieldValue::Number(Some(u), _) => display_number(*u),
        _ => String::new(),
    }
}

/// A name-or-number field as text, or an empty text.
pub fn region_field(v: &FieldValue) -> (r: String)
    ensures
        r@ == region_text_of(*v),
{
    match v {
        FieldValue::Text(t) => t.clone(),
        FieldValue::Number(Some(u), _) => display_number(*u),
        _ => String::new(),
    }
}

/// A string-or-signed-number field as text, or an empty text.
pub fn strand_field(v: &FieldValue) -> (r: String)
    ensures
        r@ == strand_text_of(*v),
{
    match v {
        FieldValue::Text(t) => t.clone(),
        FieldValue::Number(_, Some(i)) => display_signed(*i),
        _ => String::new(),
    }
}

/// The gene record that a lookup document describes, with `dna` as its
/// sequence.
pub fn gene_from_lookup(record: &LookupRecord, dna: &str) -> (r: Gene)
    ensures
        r@.assembly_name == text_of(record.assembly_name),
        r@.biotype == text_of(record.biotype),
        r@.canonical_transcript == text_of(record.canonical_transcript),
        r@.db_type == text_of(record.db_type),
        r@.description == text_of(record.description),
        r@.display_name == text_of(record.display_name),
        r@.dna == dna@,
        r@.end == unsigned_text_of(record.end),
        r@.id == text_of(record.id),
        r@.logic_name == text_of(record.logic_name),
        r@.object_type == text_of(record.object_type),
        r@.seq_region_name == region_text_of(record.seq_region_name),
        r@.source == text_of(record.source),
        r@.species == text_of(record.species),
        r@.start == unsigned_text_of(record.start),
        r@.strand == strand_text_of(record.strand),
        r@.version == unsigned_text_of(record.version),
{
    let assembly_name = text_field(&record.assembly_name);
    let biotype = text_field(&record.biotype);
    let canonical_transcript = text_field(&record.canonical_transcript);
    let db_type = text_field(&record.db_type);
    let description = text_field(&record.description);
    let display_name = text_field(&record.display_name);
    let dna = String::from_str(dna);
    let end = unsigned_field(&record.end);
    let id = text_field(&record.id);
    let logic_name = text_field(&record.logic_name);
    let object_type = text_field(&record.object_type);
    let seq_region_name = region_field(&record.seq_region_name);
    let source = text_field(&record.source);
    let species = text_field(&record.species);
    let start = unsigned_field(&record.start);
    let strand = strand_field(&record.strand);
    let version = unsigned_field(&record.version);
    Gene::new(
        assembly_name.as_str(),
        biotype.as_str(),
        canonical_transcript.as_str(),
        db_type.as_str(),
        description.as_str(),
        display_name.as_str(),
        dna.as_str(),
        end.as_str(),
        id.as_str(),
        logic_name.as_str(),
        object_type.as_str(),
        seq_region_name.as_str(),
        source.as_str(),
        species.as_str(),
        start.as_str(),
        strand.as_str(),
        version.as_str(),
    )
}

/// `a` and `b` are the same text.
pub(crate) fn same_text(a: &str, b: &str) -> (r: bool)
    ensures
        r == (a@ == b@),
{
    String::from_str(a) == String::from_str(b)
}

/// The Ensembl lookup of the gene with identifier `ensembl_id`.
pub fn ensembl_lookup_url(ensembl_id: &str) -> (r: String)
    ensures
        r@ == ENSEMBL_BASE_URL@ + "/lookup/id/"@ + ensembl_id@,
{
    let mut url = String::from_str(ENSEMBL_BASE_URL);
    url.append("/lookup/id/");
    url.append(ensembl_id);
    url
}

/// The daily number of Ensembl requests is used up: `number_of_requests_made`
/// is known and has reached the limit.
pub fn request_limit_reached(number_of_requests_made: Option<u32>) -> (r: bool)
    ensures
        r == (number_of_requests_made matches Some(n) && n >= ENSEMBL_DAILY_REQUEST_LIMIT),
{
    match number_of_requests_made {
        Some(n) => n >= ENSEMBL_DAILY_REQUEST_LIMIT,
        None => false,
    }
}

/// The UCSC sequence query for a region: the genome is named only for the
/// GRCh38 assembly (as `hg38`).
pub open spec fn dna_search_text(
    assembly_name: Seq<char>,
    start: Seq<char>,
    end: Seq<char>,
    chromosome: Seq<char>,
) -> Seq<char> {
    UCSC_GENOME_BASE_URL@ + "/getData/sequence?"@ + (if assembly_name == "GRCh38"@ {
        "genome=hg38;"@
    } else {
        Seq::empty()
    }) + "chrom=chr"@ + chromosome + ";"@ + "start="@ + start + ";"@ + "end="@ + end + ";"@
}

/// The UCSC query for the DNA of `chromosome` from `start` to `end`.
pub fn dna_search_url(assembly_name: &str, start: &str, end: &str, chromosome: &str) -> (r: String)
    ensures
        r@ == dna_search_text(assembly_name@, start@, end@, chromosome@),
{
    let mut url = String::from_str(UCSC_GENOME_BASE_URL);
    url.append("/getData/sequence?");
    if same_text(assembly_name, "GRCh38") {
        url.append("genome=hg38;");
    }
    url.append("chrom=chr");
    url.append(chromosome);
    url.append(";");
    url.append("start=");
    url.append(start);
    url.append(";");
    url.append("end=");
    url.append(end);
    url.append(";");
    url
}

} // verus!
