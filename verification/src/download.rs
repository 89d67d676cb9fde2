//! Tile acquisition support: download source configuration, URL
//! construction, and decompression of fetched payloads.
//!
//! The network transfer itself is the caller's; this module holds
//! everything around it that is pure computation: choosing and
//! filling in a URL template, mapping a tile to the continent
//! directory some servers use, and unpacking a gzip or zip payload
//! into raw tile bytes.

use vstd::prelude::*;
use crate::error::SrtmError;

verus! {

/// Compression format of a downloaded tile payload.
#[derive(Debug, Clone, Copy, PartialEq, Eq, Structural)]
pub enum Compression {
    /// Raw tile bytes.
    Uncompressed,
    /// Gzip stream (`.hgt.gz`).
    Gzip,
    /// Zip archive holding the tile (`.hgt.zip`).
    Zip,
}

impl Default for Compression {
    /// Payloads are taken as raw tile bytes unless configured
    /// otherwise.
    fn default() -> (r: Compression)
        ensures
            r is Uncompressed,
    {
        Compression::Uncompressed
    }
}

/// Whether `a` is `b` up to ASCII case, where `b` is a lower-case
/// letter or another exact character.
pub open spec fn spec_eq_ascii_ci(a: char, b_lower: char) -> bool {
    a == b_lower || (97 <= b_lower as int <= 122 && a as int + 32 == b_lower as int)
}

/// Whether `s` ends in `.gz`, ASCII-case-insensitively.
pub open spec fn spec_ends_gz(s: Seq<char>) -> bool {
    s.len() >= 3 && s[s.len() - 3] == '.' && spec_eq_ascii_ci(s[s.len() - 2], 'g')
        && spec_eq_ascii_ci(s[s.len() - 1], 'z')
}

/// Whether `s` ends in `.zip`, ASCII-case-insensitively.
pub open spec fn spec_ends_zip(s: Seq<char>) -> bool {
    s.len() >= 4 && s[s.len() - 4] == '.' && spec_eq_ascii_ci(s[s.len() - 3], 'z')
        && spec_eq_ascii_ci(s[s.len() - 2], 'i') && spec_eq_ascii_ci(s[s.len() - 1], 'p')
}

/// The compression format a URL's extension announces.
pub open spec fn spec_compression_from_url(s: Seq<char>) -> Compression {
    if spec_ends_gz(s) {
        Compression::Gzip
    } else if spec_ends_zip(s) {
        Compression::Zip
    } else {
        Compression::Uncompressed
    }
}

/// Exec form of [`spec_eq_ascii_ci`].
fn eq_ascii_ci(a: char, b_lower: char) -> (r: bool)
    ensures
        r == spec_eq_ascii_ci(a, b_lower),
{
    a == b_lower || ('a' <= b_lower && b_lower <= 'z' && (a as u32) + 32 == b_lower as u32)
}

impl Compression {
    /// Detect the compression format from a URL or filename
    /// extension: `.gz` is gzip, `.zip` a zip archive, anything else
    /// raw bytes.  The comparison ignores ASCII case.
    pub fn from_url(url: &str) -> (r: Compression)
        ensures
            r == spec_compression_from_url(url@),
    {
        let n: usize = url.unicode_len();
        if n >= 3 && url.get_char(n - 3) == '.' && eq_ascii_ci(url.get_char(n - 2), 'g')
            && eq_ascii_ci(url.get_char(n - 1), 'z') {
            Compression::Gzip
        } else if n >= 4 && url.get_char(n - 4) == '.' && eq_ascii_ci(url.get_char(n - 3), 'z')
            && eq_ascii_ci(url.get_char(n - 2), 'i') && eq_ascii_ci(url.get_char(n - 1), 'p') {
            Compression::Zip
        } else {
            Compression::Uncompressed
        }
    }
}

/// Where tiles are downloaded from.
#[derive(Debug, Clone)]
pub enum SrtmSource {
    /// The ArduPilot terrain server's fine-grid set, in a flat
    /// directory.
    ArduPilotSrtm1,
    /// The ArduPilot terrain server's coarse-grid set, organized in
    /// continent subdirectories.
    ArduPilotSrtm3,
    /// NASA Earthdata, which requires an account.
    NasaEarthdata {
        /// Earthdata account name.
        username: String,
        /// Earthdata account password.
        password: String,
    },
    /// A custom URL template with `{filename}`, `{lat_prefix}`,
    /// `{lat}`, `{lon_prefix}`, `{lon}` and `{continent}`
    /// placeholders.
    Custom {
        /// The template the tile's components are substituted into.
        url_template: String,
        /// Compression of the payload the URL serves.
        compression: Compression,
    },
}

impl Default for SrtmSource {
    /// An empty custom template: the user must configure a source
    /// before URLs can be built.
    fn default() -> (r: SrtmSource)
        ensures
            r matches SrtmSource::Custom { url_template, compression } && url_template@.len() == 0
                && compression is Uncompressed,
    {
        SrtmSource::Custom { url_template: String::new(), compression: Compression::Uncompressed }
    }
}

/// How tiles are acquired: the source, the request timeout, and how
/// often to retry.
#[derive(Debug, Clone)]
pub struct DownloadConfig {
    /// The data source to download from.
    pub source: SrtmSource,
    /// Request timeout in seconds.
    pub timeout_secs: u64,
    /// Number of retry attempts on failure.
    pub max_retries: u32,
}

impl Default for DownloadConfig {
    /// An unconfigured source, a 300 second timeout and 3 retries.
    fn default() -> (r: DownloadConfig)
        ensures
            r.source matches SrtmSource::Custom { url_template, compression } && url_template@.len()
                == 0 && compression is Uncompressed,
            r.timeout_secs == 300,
            r.max_retries == 3,
    {
        DownloadConfig {
            source: SrtmSource::default(),
            timeout_secs: 300,
            max_retries: 3,
        }
    }
}

impl DownloadConfig {
    /// A custom URL template; the payload compression is detected
    /// from the template's extension.
    pub fn with_url_template(url_template: &str) -> (r: DownloadConfig)
        ensures
            r.source matches SrtmSource::Custom { url_template: t, compression } && t@
                == url_template@ && compression == spec_compression_from_url(url_template@),
            r.timeout_secs == 300,
            r.max_retries == 3,
    {
        let compression = Compression::from_url(url_template);
        DownloadConfig {
            source: SrtmSource::Custom { url_template: url_template.to_owned(), compression },
            timeout_secs: 300,
            max_retries: 3,
        }
    }

    /// A custom URL template with the payload compression stated
    /// explicitly.
    pub fn with_url_template_and_compression(url_template: &str, compression: Compression) -> (r:
        DownloadConfig)
        ensures
            r.source matches SrtmSource::Custom { url_template: t, compression: c } && t@
                == url_template@ && c == compression,
            r.timeout_secs == 300,
            r.max_retries == 3,
    {
        DownloadConfig {
            source: SrtmSource::Custom { url_template: url_template.to_owned(), compression },
            timeout_secs: 300,
            max_retries: 3,
        }
    }

    /// A custom URL template with a gzip flag, kept for callers of
    /// the older two-state interface.
    pub fn with_url_template_gzipped(url_template: &str, is_gzipped: bool) -> (r: DownloadConfig)
        ensures
            r.source matches SrtmSource::Custom { url_template: t, compression: c } && t@
                == url_template@ && c == (if is_gzipped {
                Compression::Gzip
            } else {
                Compression::Uncompressed
            }),
            r.timeout_secs == 300,
            r.max_retries == 3,
    {
        let compression = if is_gzipped {
            Compression::Gzip
        } else {
            Compression::Uncompressed
        };
        Self::with_url_template_and_compression(url_template, compression)
    }

    /// The NASA Earthdata source with the given credentials.
    pub fn nasa_earthdata(username: &str, password: &str) -> (r: DownloadConfig)
        ensures
            r.source matches SrtmSource::NasaEarthdata { username: u, password: p } && u@
                == username@ && p@ == password@,
            r.timeout_secs == 300,
            r.max_retries == 3,
    {
        DownloadConfig {
            source: SrtmSource::NasaEarthdata {
                username: username.to_owned(),
                password: password.to_owned(),
            },
            timeout_secs: 300,
            max_retries: 3,
        }
    }

    /// The recommended ArduPilot source: the fine-grid set.
    pub fn ardupilot() -> (r: DownloadConfig)
        ensures
            r.source is ArduPilotSrtm1,
            r.timeout_secs == 300,
            r.max_retries == 3,
    {
        Self::ardupilot_srtm1()
    }

    /// The ArduPilot fine-grid set: about 25 MB per tile, flat
    /// directory layout.
    pub fn ardupilot_srtm1() -> (r: DownloadConfig)
        ensures
            r.source is ArduPilotSrtm1,
            r.timeout_secs == 300,
            r.max_retries == 3,
    {
        DownloadConfig { source: SrtmSource::ArduPilotSrtm1, timeout_secs: 300, max_retries: 3 }
    }

    /// The ArduPilot coarse-grid set: about 2.8 MB per tile, one
    /// subdirectory per continent.
    pub fn ardupilot_srtm3() -> (r: DownloadConfig)
        ensures
            r.source is ArduPilotSrtm3,
            r.timeout_secs == 300,
            r.max_retries == 3,
    {
        DownloadConfig { source: SrtmSource::ArduPilotSrtm3, timeout_secs: 300, max_retries: 3 }
    }

    /// Replace the request timeout.
    pub fn with_timeout(self, timeout_secs: u64) -> (r: DownloadConfig)
        ensures
            r.timeout_secs == timeout_secs,
            r.max_retries == self.max_retries,
            r.source == self.source,
    {
        DownloadConfig { timeout_secs, ..self }
    }

    /// Replace the maximum number of retry attempts.
    pub fn with_max_retries(self, max_retries: u32) -> (r: DownloadConfig)
        ensures
            r.max_retries == max_retries,
            r.timeout_secs == self.timeout_secs,
            r.source == self.source,
    {
        DownloadConfig { max_retries, ..self }
    }
}

/// Whether `pat` occurs in `s` at offset `i`.
pub open spec fn spec_match_at(s: Seq<char>, i: int, pat: Seq<char>) -> bool {
    &&& 0 <= i
    &&& i + pat.len() <= s.len()
    &&& forall|j: int| 0 <= j < pat.len() ==> s[i + j] == pat[j]
}

/// `s` from offset `i` on, with every non-overlapping occurrence of
/// `pat` replaced by `rep`, scanning left to right.
pub open spec fn spec_replace_from(s: Seq<char>, i: int, pat: Seq<char>, rep: Seq<char>) -> Seq<
    char,
>
    decreases s.len() - i,
{
    if i < 0 || i >= s.len() {
        Seq::empty()
    } else if pat.len() > 0 && spec_match_at(s, i, pat) {
        rep + spec_replace_from(s, i + pat.len(), pat, rep)
    } else {
        seq![s[i]] + spec_replace_from(s, i + 1, pat, rep)
    }
}

/// `s` with every non-overlapping occurrence of `pat` replaced by
/// `rep`, scanning left to right.
pub open spec fn spec_replace(s: Seq<char>, pat: Seq<char>, rep: Seq<char>) -> Seq<char> {
    spec_replace_from(s, 0, pat, rep)
}

/// Whether `pat` occurs in `sv` at offset `i`.
fn chars_match_at(sv: &Vec<char>, i: usize, pv: &Vec<char>) -> (r: bool)
    requires
        i + pv@.len() <= sv@.len(),
    ensures
        r == spec_match_at(sv@, i as int, pv@),
{
    let ns: usize = sv.len();
    let m: usize = pv.len();
    let mut j: usize = 0;
    while j < m
        invariant
            j <= m,
            m == pv@.len(),
            ns == sv@.len(),
            i + m <= ns,
            forall|q: int| 0 <= q < j ==> sv@[i + q] == pv@[q],
        decreases m - j,
    {
        if sv[i + j] != pv[j] {
            return false;
        }
        j = j + 1;
    }
    true
}

/// Replace every non-overlapping occurrence of `pat` in `s` by `rep`,
/// scanning left to right.
pub fn replace_all(s: &str, pat: &str, rep: &str) -> (r: String)
    ensures
        r@ == spec_replace(s@, pat@, rep@),
{
    let sv = crate::filename::str_chars(s);
    let pv = crate::filename::str_chars(pat);
    let n: usize = sv.len();
    let m: usize = pv.len();
    let mut out = String::new();
    let mut i: usize = 0;
    while i < n
        invariant
            i <= n,
            n == sv@.len(),
            m == pv@.len(),
            sv@ == s@,
            pv@ == pat@,
            spec_replace(s@, pat@, rep@) == out@ + spec_replace_from(s@, i as int, pat@, rep@),
        decreases n - i,
    {
        if m > 0 && m <= n - i && chars_match_at(&sv, i, &pv) {
            let ghost i0 = i as int;
            out.append(rep);
            i = i + m;
            proof {
                assert(spec_replace_from(s@, i0, pat@, rep@) == rep@ + spec_replace_from(
                    s@,
                    i0 + pat@.len(),
                    pat@,
                    rep@,
                ));
            }
        } else {
            let ghost i0 = i as int;
            let piece = s.substring_char(i, i + 1);
            proof {
                assert(piece@ =~= seq![s@[i0]]);
                assert(spec_replace_from(s@, i0, pat@, rep@) == seq![s@[i0]]
                    + spec_replace_from(s@, i0 + 1, pat@, rep@));
            }
            out.append(piece);
            i = i + 1;
        }
    }
    proof {
        assert(spec_replace_from(s@, n as int, pat@, rep@) =~= Seq::<char>::empty());
        assert(out@ =~= out@ + Seq::<char>::empty());
    }
    out
}

/// Split a bare 7-character tile name into its hemisphere prefixes
/// and digit groups: `N35E138` becomes `("N", "35", "E", "138")`.
/// Any other length is rejected.
pub fn parse_filename_components<'a>(base_name: &'a str) -> (r: Result<
    (&'a str, &'a str, &'a str, &'a str),
    SrtmError,
>)
    ensures
        r is Ok <==> base_name@.len() == 7,
        r matches Ok(p) ==> {
            &&& p.0@ == base_name@.subrange(0, 1)
            &&& p.1@ == base_name@.subrange(1, 3)
            &&& p.2@ == base_name@.subrange(3, 4)
            &&& p.3@ == base_name@.subrange(4, 7)
        },
        r matches Err(e) ==> e matches SrtmError::DownloadFailed { filename, reason } && filename@
            == base_name@ + ".hgt"@,
{
    let n: usize = base_name.unicode_len();
    if n != 7 {
        let mut filename = base_name.to_owned();
        filename.append(".hgt");
        return Err(
            SrtmError::DownloadFailed {
                filename,
                reason: String::from_str("Invalid filename format"),
            },
        );
    }
    let lat_prefix = base_name.substring_char(0, 1);
    let lat = base_name.substring_char(1, 3);
    let lon_prefix = base_name.substring_char(3, 4);
    let lon = base_name.substring_char(4, 7);
    Ok((lat_prefix, lat, lon_prefix, lon))
}

/// The value of the digit string `s` (its first `n` characters),
/// most significant first.
pub open spec fn spec_digits_value(s: Seq<char>, n: int) -> int
    decreases n,
{
    if n <= 0 {
        0
    } else {
        10 * spec_digits_value(s, n - 1) + (s[n - 1] as int - 48)
    }
}

/// Whether every character of `s` is a decimal digit.
pub open spec fn spec_all_digits(s: Seq<char>) -> bool {
    forall|i: int| 0 <= i < s.len() ==> 48 <= (#[trigger] s[i]) as int <= 57
}

/// The signed coordinate a filename component pair stands for: the
/// digit value of `value` (zero when it is empty or not all digits),
/// negated under an `S` or `W` prefix.
pub open spec fn spec_coord_from_components(prefix: Seq<char>, value: Seq<char>) -> int {
    let v = if value.len() > 0 && spec_all_digits(value) {
        spec_digits_value(value, value.len() as int)
    } else {
        0
    };
    if prefix.len() == 1 && (prefix[0] == 'S' || prefix[0] == 'W') {
        -v
    } else {
        v
    }
}

/// Parse a coordinate from its filename components: `("S", "34")` is
/// -34.  A value that is not all digits counts as zero.  Components
/// are at most the three digits of a longitude.
pub fn parse_coord_from_components(prefix: &str, value: &str) -> (r: i32)
    requires
        value@.len() <= 3,
    ensures
        r == spec_coord_from_components(prefix@, value@),
{
    let n: usize = value.unicode_len();
    let mut v: i32 = 0;
    let mut i: usize = 0;
    let mut all_digits: bool = n > 0;
    while i < n
        invariant
            i <= n,
            n == value@.len(),
            n <= 3,
            all_digits == (n > 0 && (forall|q: int|
                0 <= q < i ==> 48 <= (#[trigger] value@[q]) as int <= 57)),
            all_digits ==> v == spec_digits_value(value@, i as int),
            0 <= v <= (if i == 0 { 0int } else if i == 1 { 9int } else if i == 2 { 99int } else {
                999int
            }),
        decreases n - i,
    {
        let c = value.get_char(i);
        if '0' <= c && c <= '9' {
            if all_digits {
                v = 10 * v + ((c as u32) as i32 - 48);
            } else {
                v = 0;
            }
        } else {
            all_digits = false;
            v = 0;
        }
        i = i + 1;
    }
    let is_neg = {
        let pn: usize = prefix.unicode_len();
        pn == 1 && (prefix.get_char(0) == 'S' || prefix.get_char(0) == 'W')
    };
    if !all_digits {
        v = 0;
    }
    if is_neg {
        -v
    } else {
        v
    }
}


/// The continent directory name some servers organize tiles under,
/// from the tile's whole-degree coordinates; `None` for regions no
/// directory covers.  Overlaps resolve in a fixed priority order.
pub open spec fn spec_continent_of(lat: int, lon: int) -> Option<Seq<char>> {
    if 15 <= lat <= 60 && -170 <= lon <= -50 {
        Some("North_America"@)
    } else if -60 <= lat <= 15 && -90 <= lon <= -30 {
        Some("South_America"@)
    } else if -50 <= lat <= -10 && 110 <= lon <= 180 {
        Some("Australia"@)
    } else if -35 <= lat <= 35 && -20 <= lon <= 55 {
        Some("Africa"@)
    } else if 0 <= lat <= 60 && -15 <= lon <= 180 {
        Some("Eurasia"@)
    } else {
        None
    }
}

/// Map whole-degree coordinates to the continent directory used by
/// continent-organized servers; `None` for uncovered regions such as
/// Antarctica or open ocean.
pub fn coords_to_continent(lat: i32, lon: i32) -> (r: Option<&'static str>)
    ensures
        (match r {
            Some(s) => Some(s@),
            None => None,
        }) == spec_continent_of(lat as int, lon as int),
{
    if 15 <= lat && lat <= 60 && -170 <= lon && lon <= -50 {
        Some("North_America")
    } else if -60 <= lat && lat <= 15 && -90 <= lon && lon <= -30 {
        Some("South_America")
    } else if -50 <= lat && lat <= -10 && 110 <= lon && lon <= 180 {
        Some("Australia")
    } else if -35 <= lat && lat <= 35 && -20 <= lon && lon <= 55 {
        Some("Africa")
    } else if 0 <= lat && lat <= 60 && -15 <= lon && lon <= 180 {
        Some("Eurasia")
    } else {
        None
    }
}

/// The URL a custom template yields for the tile named `base`: each
/// placeholder replaced in a fixed order, the continent placeholder
/// last, with an empty string where no continent covers the tile.
pub open spec fn spec_custom_url(template: Seq<char>, base: Seq<char>) -> Seq<char> {
    let latp = base.subrange(0, 1);
    let lat = base.subrange(1, 3);
    let lonp = base.subrange(3, 4);
    let lon = base.subrange(4, 7);
    let continent = match spec_continent_of(
        spec_coord_from_components(latp, lat),
        spec_coord_from_components(lonp, lon),
    ) {
        Some(v) => v,
        None => Seq::empty(),
    };
    spec_replace(
        spec_replace(
            spec_replace(
                spec_replace(
                    spec_replace(spec_replace(template, "{filename}"@, base), "{lat_prefix}"@, latp),
                    "{lat}"@,
                    lat,
                ),
                "{lon_prefix}"@,
                lonp,
            ),
            "{lon}"@,
            lon,
        ),
        "{continent}"@,
        continent,
    )
}

impl DownloadConfig {
    /// The download URL for the tile named `base_name` (a bare
    /// 7-character name such as `N35E138`) under this configuration's
    /// source.  Fails for a malformed name, for a continent-organized
    /// source when no continent covers the tile, and for an empty
    /// custom template.
    pub fn build_url(&self, base_name: &str) -> (r: Result<String, SrtmError>)
        ensures
            r is Ok <==> (base_name@.len() == 7 && (match self.source {
                SrtmSource::ArduPilotSrtm3 => spec_continent_of(
                    spec_coord_from_components(
                        base_name@.subrange(0, 1),
                        base_name@.subrange(1, 3),
                    ),
                    spec_coord_from_components(
                        base_name@.subrange(3, 4),
                        base_name@.subrange(4, 7),
                    ),
                ) is Some,
                SrtmSource::Custom { url_template, .. } => url_template@.len() > 0,
                _ => true,
            })),
            r matches Ok(url) ==> url@ == (match self.source {
                SrtmSource::ArduPilotSrtm1 => "https://terrain.ardupilot.org/SRTM1/"@ + base_name@
                    + ".hgt.zip"@,
                SrtmSource::ArduPilotSrtm3 => "https://terrain.ardupilot.org/SRTM3/"@
                    + spec_continent_of(
                    spec_coord_from_components(
                        base_name@.subrange(0, 1),
                        base_name@.subrange(1, 3),
                    ),
                    spec_coord_from_components(
                        base_name@.subrange(3, 4),
                        base_name@.subrange(4, 7),
                    ),
                )->0 + "/"@ + base_name@ + ".hgt.zip"@,
                SrtmSource::NasaEarthdata { .. } =>
                    "https://e4ftl01.cr.usgs.gov/MEASURES/SRTMGL1.003/2000.02.11/"@ + base_name@
                    + ".SRTMGL1.hgt.zip"@,
                SrtmSource::Custom { url_template, .. } => spec_custom_url(
                    url_template@,
                    base_name@,
                ),
            }),
            r matches Err(e) ==> e matches SrtmError::DownloadFailed { .. },
    {
        let (lat_prefix, lat_str, lon_prefix, lon_str) = match parse_filename_components(
            base_name,
        ) {
            Ok(p) => p,
            Err(e) => {
                return Err(e);
            },
        };
        match &self.source {
            SrtmSource::ArduPilotSrtm1 => {
                let mut url = String::from_str("https://terrain.ardupilot.org/SRTM1/");
                url.append(base_name);
                url.append(".hgt.zip");
                Ok(url)
            },
            SrtmSource::ArduPilotSrtm3 => {
                let lat = parse_coord_from_components(lat_prefix, lat_str);
                let lon = parse_coord_from_components(lon_prefix, lon_str);
                match coords_to_continent(lat, lon) {
                    Some(continent) => {
                        let mut url = String::from_str("https://terrain.ardupilot.org/SRTM3/");
                        url.append(continent);
                        url.append("/");
                        url.append(base_name);
                        url.append(".hgt.zip");
                        Ok(url)
                    },
                    None => {
                        let mut filename = base_name.to_owned();
                        filename.append(".hgt");
                        Err(
                            SrtmError::DownloadFailed {
                                filename,
                                reason: String::from_str(
                                    "Coordinates do not map to a known continent",
                                ),
                            },
                        )
                    },
                }
            },
            SrtmSource::NasaEarthdata { .. } => {
                let mut url = String::from_str(
                    "https://e4ftl01.cr.usgs.gov/MEASURES/SRTMGL1.003/2000.02.11/",
                );
                url.append(base_name);
                url.append(".SRTMGL1.hgt.zip");
                Ok(url)
            },
            SrtmSource::Custom { url_template, .. } => {
                if url_template.as_str().is_empty() {
                    let mut filename = base_name.to_owned();
                    filename.append(".hgt");
                    return Err(
                        SrtmError::DownloadFailed {
                            filename,
                            reason: String::from_str("No download URL template configured"),
                        },
                    );
                }
                let lat = parse_coord_from_components(lat_prefix, lat_str);
                let lon = parse_coord_from_components(lon_prefix, lon_str);
                let continent: &str = match coords_to_continent(lat, lon) {
                    Some(c) => c,
                    None => "",
                };
                proof {
                    reveal_strlit("");
                }
                let u1 = replace_all(url_template.as_str(), "{filename}", base_name);
                let u2 = replace_all(u1.as_str(), "{lat_prefix}", lat_prefix);
                let u3 = replace_all(u2.as_str(), "{lat}", lat_str);
                let u4 = replace_all(u3.as_str(), "{lon_prefix}", lon_prefix);
                let u5 = replace_all(u4.as_str(), "{lon}", lon_str);
                let u6 = replace_all(u5.as_str(), "{continent}", continent);
                proof {
                    assert(""@ =~= Seq::<char>::empty());
                }
                Ok(u6)
            },
        }
    }
}

/// The entry names of the zip archive `data`, in central-directory
/// order, or nothing when the bytes are not a readable archive.
/// Archive contents are a function of the bytes alone.
pub uninterp spec fn zip_names_of(data: Seq<u8>) -> Option<Seq<Seq<char>>>;

/// The decompressed contents of entry `idx` of the zip archive
/// `data`, or nothing when the archive or that entry cannot be read.
pub uninterp spec fn zip_entry_of(data: Seq<u8>, idx: int) -> Option<Seq<u8>>;

/// The decompressed contents of the gzip stream `data`, or nothing
/// when the bytes are not a readable gzip stream.
pub uninterp spec fn gunzip_of(data: Seq<u8>) -> Option<Seq<u8>>;

/// Relies on `zip::ZipArchive::new` and `ZipArchive::file_names`: the
/// archive's entry list, in central-directory order, depends on the
/// bytes alone.  (The archive handle borrows the buffer, so opening
/// and listing cannot be split into separate wrappers.)
#[verifier::external_body]
fn zip_entry_names(data: &Vec<u8>) -> (r: Option<Vec<String>>)
    ensures
        r is Some <==> zip_names_of(data@) is Some,
        r matches Some(v) ==> Some(v.deep_view()) == zip_names_of(data@),
{
    let cursor = std::io::Cursor::new(data.as_slice());
    match zip::ZipArchive::new(cursor) {
        Ok(archive) => Some(archive.file_names().map(|n| n.to_owned()).collect()),
        Err(_) => None,
    }
}

/// Relies on `zip::ZipArchive::new`, `ZipArchive::by_index` and
/// `Read::read_to_end`: an entry's decompressed contents depend on
/// the bytes alone.  (The entry reader borrows the archive, which
/// borrows the buffer, so the chain cannot be split into separate
/// wrappers.)
#[verifier::external_body]
fn zip_entry_data(data: &Vec<u8>, idx: usize) -> (r: Option<Vec<u8>>)
    ensures
        r is Some <==> zip_entry_of(data@, idx as int) is Some,
        r matches Some(v) ==> Some(v@) == zip_entry_of(data@, idx as int),
{
    let cursor = std::io::Cursor::new(data.as_slice());
    let mut archive = zip::ZipArchive::new(cursor).ok()?;
    let mut file = archive.by_index(idx).ok()?;
    let mut out = Vec::new();
    std::io::Read::read_to_end(&mut file, &mut out).ok()?;
    Some(out)
}

/// Relies on `flate2::read::GzDecoder` with `Read::read_to_end`:
/// decompression output depends on the input bytes alone.
#[verifier::external_body]
fn gunzip(data: &Vec<u8>) -> (r: Option<Vec<u8>>)
    ensures
        r is Some <==> gunzip_of(data@) is Some,
        r matches Some(v) ==> Some(v@) == gunzip_of(data@),
{
    let mut decoder = flate2::read::GzDecoder::new(data.as_slice());
    let mut out = Vec::new();
    match std::io::Read::read_to_end(&mut decoder, &mut out) {
        Ok(_) => Some(out),
        Err(_) => None,
    }
}

/// Whether an archive entry name ends in `.hgt`, up to ASCII case.
pub open spec fn spec_is_hgt_name(s: Seq<char>) -> bool {
    s.len() >= 4 && s[s.len() - 4] == '.' && spec_eq_ascii_ci(s[s.len() - 3], 'h')
        && spec_eq_ascii_ci(s[s.len() - 2], 'g') && spec_eq_ascii_ci(s[s.len() - 1], 't')
}

/// The first index of an entry name ending in `.hgt`.
pub open spec fn spec_first_hgt(ns: Seq<Seq<char>>) -> Option<int>
    decreases ns.len(),
{
    if ns.len() == 0 {
        None
    } else if spec_is_hgt_name(ns.first()) {
        Some(0)
    } else {
        match spec_first_hgt(ns.drop_first()) {
            Some(i) => Some(i + 1),
            None => None,
        }
    }
}

/// Exec form of [`spec_is_hgt_name`].
fn is_hgt_name(s: &str) -> (r: bool)
    ensures
        r == spec_is_hgt_name(s@),
{
    let n: usize = s.unicode_len();
    n >= 4 && s.get_char(n - 4) == '.' && eq_ascii_ci(s.get_char(n - 3), 'h') && eq_ascii_ci(
        s.get_char(n - 2),
        'g',
    ) && eq_ascii_ci(s.get_char(n - 1), 't')
}

/// The first `.hgt` entry sits where the scan stopped.
proof fn lemma_first_hgt_at(ns: Seq<Seq<char>>, j: int)
    requires
        0 <= j <= ns.len(),
        forall|m: int| 0 <= m < j ==> !spec_is_hgt_name(#[trigger] ns[m]),
        j < ns.len() ==> spec_is_hgt_name(ns[j]),
    ensures
        spec_first_hgt(ns) == (if j == ns.len() {
            None
        } else {
            Some(j)
        }),
    decreases j, ns.len(),
{
    if j == 0 {
        if ns.len() > 0 {
        }
    } else {
        assert(!spec_is_hgt_name(ns.first()));
        let tail = ns.drop_first();
        assert forall|m: int| 0 <= m < j - 1 implies !spec_is_hgt_name(#[trigger] tail[m]) by {
            assert(tail[m] == ns[m + 1]);
        }
        assert(j - 1 < tail.len() ==> spec_is_hgt_name(tail[j - 1]));
        lemma_first_hgt_at(tail, j - 1);
    }
}

/// The result of extracting the tile from the zip archive `data`:
/// the contents of the first entry whose name ends in `.hgt`.
pub open spec fn spec_extracted_hgt(data: Seq<u8>) -> Option<Seq<u8>> {
    match zip_names_of(data) {
        None => None,
        Some(ns) => match spec_first_hgt(ns) {
            None => None,
            Some(i) => zip_entry_of(data, i),
        },
    }
}

/// Extract the tile bytes from a zip archive: the contents of the
/// first entry whose name ends in `.hgt` (ASCII-case-insensitively).
/// Fails when the bytes are not a readable archive, no entry
/// matches, or the matching entry cannot be read; `filename` only
/// labels the error.
pub fn extract_hgt_from_zip(data: &Vec<u8>, filename: &str) -> (r: Result<Vec<u8>, SrtmError>)
    ensures
        r is Ok <==> spec_extracted_hgt(data@) is Some,
        r matches Ok(v) ==> Some(v@) == spec_extracted_hgt(data@),
        r matches Err(e) ==> e matches SrtmError::DownloadFailed { filename: f, .. } && f@
            == filename@,
{
    let names: Vec<String> = match zip_entry_names(data) {
        Some(v) => v,
        None => {
            return Err(
                SrtmError::DownloadFailed {
                    filename: filename.to_owned(),
                    reason: String::from_str("Failed to read ZIP archive"),
                },
            );
        },
    };
    let ghost ns = names.deep_view();
    let n: usize = names.len();
    let mut i: usize = 0;
    while i < n
        invariant
            i <= n,
            n == names@.len(),
            ns == names.deep_view(),
            Some(ns) == zip_names_of(data@),
            forall|m: int| 0 <= m < i ==> !spec_is_hgt_name(#[trigger] ns[m]),
        decreases n - i,
    {
        if is_hgt_name(names[i].as_str()) {
            proof {
                assert(ns[i as int] == names@[i as int]@);
                lemma_first_hgt_at(ns, i as int);
            }
            return match zip_entry_data(data, i) {
                Some(v) => Ok(v),
                None => Err(
                    SrtmError::DownloadFailed {
                        filename: filename.to_owned(),
                        reason: String::from_str("Failed to extract .hgt from ZIP"),
                    },
                ),
            };
        }
        proof {
            assert(ns[i as int] == names@[i as int]@);
        }
        i = i + 1;
    }
    proof {
        lemma_first_hgt_at(ns, n as int);
    }
    Err(
        SrtmError::DownloadFailed {
            filename: filename.to_owned(),
            reason: String::from_str("No .hgt file found in ZIP archive"),
        },
    )
}

/// What decompressing a payload under a compression mode yields:
/// raw bytes pass through, a gzip stream is inflated, a zip archive
/// gives up its first `.hgt` entry.
pub open spec fn spec_decompressed(data: Seq<u8>, compression: Compression) -> Option<Seq<u8>> {
    match compression {
        Compression::Uncompressed => Some(data),
        Compression::Gzip => gunzip_of(data),
        Compression::Zip => spec_extracted_hgt(data),
    }
}

/// Turn a fetched payload into raw tile bytes according to the
/// configured compression; `filename` only labels errors.
pub fn decompress_payload(data: Vec<u8>, compression: Compression, filename: &str) -> (r: Result<
    Vec<u8>,
    SrtmError,
>)
    ensures
        r is Ok <==> spec_decompressed(data@, compression) is Some,
        r matches Ok(v) ==> Some(v@) == spec_decompressed(data@, compression),
        r matches Err(e) ==> e matches SrtmError::DownloadFailed { filename: f, .. } && f@
            == filename@,
{
    match compression {
        Compression::Uncompressed => Ok(data),
        Compression::Gzip => match gunzip(&data) {
            Some(v) => Ok(v),
            None => Err(
                SrtmError::DownloadFailed {
                    filename: filename.to_owned(),
                    reason: String::from_str("Failed to decompress gzip"),
                },
            ),
        },
        Compression::Zip => extract_hgt_from_zip(&data, filename),
    }
}

} // verus!
