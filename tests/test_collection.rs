use ohmers::decoder::{Decoder, DecoderError};
use ohmers::encoder::Encoder;
use ohmers::properties::{Collection, Reference};
use ohmers::store::Store;

#[derive(PartialEq, Debug, Clone)]
struct Movie {
    id: usize,
    year: Reference,
    name: String,
}

impl Movie {
    fn encode(&self) -> Encoder {
        let mut e = Encoder::new();
        e.emit_struct("Movie").unwrap();
        e.emit_id(self.id);
        e.emit_reference("year", self.year.id());
        e.emit_str("name", &self.name);
        e
    }

    fn decode(d: &Decoder) -> Result<Movie, DecoderError> {
        Ok(Movie {
            id: d.read_usize("id")?,
            year: Reference::with_value(d.read_reference("year")?),
            name: d.read_str("name")?,
        })
    }
}

fn year(years: &mut Store, y: u16) -> usize {
    let mut e = Encoder::new();
    e.emit_struct("Year").unwrap();
    e.emit_u64("year", y as u64);
    e.emit_collection("movies");
    years.save(&e).unwrap()
}

fn create(movies: &mut Store, name: &str, year: usize) -> Movie {
    let mut m = Movie { id: 0, year: Reference::with_value(year), name: name.to_string() };
    m.id = movies.save(&m.encode()).unwrap();
    m
}

#[test]
fn test_movie_year() {
    let mut years = Store::new("Year", vec![], vec![]);
    let mut movies = Store::new("Movie", vec![], vec!["year".to_string()]);
    let y85 = year(&mut years, 1985);
    let y86 = year(&mut years, 1986);
    let bttf = create(&mut movies, "Back to the future", y85);
    let rocky_iv = create(&mut movies, "Rocky IV", y85);
    let cocoon = create(&mut movies, "Cocoon", y85);
    let _ = create(&mut movies, "Top Gun", y86);

    let q = Collection::new().all("Movie", "year", y85);
    let ids = match &q.set {
        stal::Set::Key(k) => {
            assert_eq!(k.as_slice(), b"Movie:indices:year_id:1");
            movies.find("year_id", "1")
        }
        other => panic!("unexpected {:?}", other),
    };
    let sorted: Vec<Movie> = movies
        .sort(&ids, "name", None, true)
        .into_iter()
        .map(|id| Movie::decode(&Decoder::new(movies.load(id).unwrap())).unwrap())
        .collect();
    assert_eq!(sorted, vec![bttf.clone(), cocoon.clone(), rocky_iv.clone()]);
}
