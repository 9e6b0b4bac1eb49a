//! Queries of the Ensembl and UCSC genome browsers.
use vstd::prelude::*;
use vstd::string::*;
use crate::gene::{same_text, UCSC_GENOME_BASE_URL};

verus! {

/// A gene record together with when it was fetched.
pub struct GenomeBrowserResponse {
    pub gene: crate::gene::Gene,
    /// When the record was fetched, in milliseconds since the Unix epoch.
    pub timestamp: u64,
}

/// The UCSC name of a genome assembly: `hg38` for GRCh38, `hg19` for
/// GRCh37, and any other name as it is.
pub open spec fn genome_of(assembly_name: Seq<char>) -> Seq<char> {
    if assembly_name == "GRCh38"@ {
        "hg38"@
    } else if assembly_name == "GRCh37"@ {
        "hg19"@
    } else {
        assembly_name
    }
}

/// The UCSC name of the genome assembly `assembly_name`.
pub fn ucsc_genome(assembly_name: &str) -> (r: &str)
    ensures
        r@ == genome_of(assembly_name@),
{
    if same_text(assembly_name, "GRCh38") {
        "hg38"
    } else if same_text(assembly_name, "GRCh37") {
        "hg19"
    } else {
        assembly_name
    }
}

/// The UCSC sequence query for a region of an assembly.
pub open spec fn sequence_query_text(
    assembly_name: Seq<char>,
    start: Seq<char>,
    end: Seq<char>,
    chromosome: Seq<char>,
) -> Seq<char> {
    UCSC_GENOME_BASE_URL@ + "/getData/sequence?genome="@ + genome_of(assembly_name) + ";chrom=chr"@
        + chromosome + ";start="@ + start + ";end="@ + end + ";"@
}

/// The UCSC query for the DNA of `chromosome` from `start` to `end` in the
/// assembly `assembly_name`.
pub fn ucsc_sequence_url(assembly_name: &str, start: &str, end: &str, chromosome: &str) -> (r:
    String)
    ensures
        r@ == sequence_query_text(assembly_name@, start@, end@, chromosome@),
{
    let mut url = String::from_str(UCSC_GENOME_BASE_URL);
    url.append("/getData/sequence?genome=");
    url.append(ucsc_genome(assembly_name));
    url.append(";chrom=chr");
    url.append(chromosome);
    url.append(";start=");
    url.append(start);
    url.append(";end=");
    url.append(end);
    url.append(";");
    url
}

} // verus!
