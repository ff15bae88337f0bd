//! The topics an assistant declines by default, by category.

use vstd::prelude::*;

verus! {

/// A topic the AI should not answer about.
#[derive(Debug, Clone)]
pub struct BeyondScopeTopic {
    /// The topic (e.g. "soccer", "olympics").
    pub value: String,
    /// What goes before the topic in the question (e.g. "is", "is the").
    pub prefix: String,
}

/// The default topics the AI should not answer about, by category.
#[derive(Debug, Clone)]
pub struct BeyondScope {
    pub sports: Vec<BeyondScopeTopic>,
    pub food: Vec<BeyondScopeTopic>,
    pub movies: Vec<BeyondScopeTopic>,
    pub history: Vec<BeyondScopeTopic>,
    pub geography: Vec<BeyondScopeTopic>,
    pub politics: Vec<BeyondScopeTopic>,
    pub science: Vec<BeyondScopeTopic>,
    pub health: Vec<BeyondScopeTopic>,
    pub art: Vec<BeyondScopeTopic>,
    pub music: Vec<BeyondScopeTopic>,
    pub fashion: Vec<BeyondScopeTopic>,
    pub travel: Vec<BeyondScopeTopic>,
    pub pets: Vec<BeyondScopeTopic>,
    pub cars: Vec<BeyondScopeTopic>,
}

/// A topic as (value, prefix) text.
pub open spec fn topic_view(t: BeyondScopeTopic) -> (Seq<char>, Seq<char>) {
    (t.value@, t.prefix@)
}

/// Topics as (value, prefix) text.
pub open spec fn topics_view(v: Seq<BeyondScopeTopic>) -> Seq<(Seq<char>, Seq<char>)> {
    v.map_values(|t: BeyondScopeTopic| topic_view(t))
}

/// The default sports topics.
pub open spec fn default_sports() -> Seq<(Seq<char>, Seq<char>)> {
    seq![
        ("soccer"@, "is"@),
        ("basketball"@, "is"@),
        ("football"@, "is"@),
        ("baseball"@, "is"@),
        ("tennis"@, "is"@),
        ("golf"@, "is"@),
        ("cricket"@, "is"@),
        ("rugby"@, "is"@),
        ("hockey"@, "is"@),
        ("olympics"@, "is the"@),
        ("world cup"@, "is the"@),
        ("super bowl"@, "is the"@),
    ]
}

/// The default food topics.
pub open spec fn default_food() -> Seq<(Seq<char>, Seq<char>)> {
    seq![
        ("cooking"@, "is"@),
        ("baking"@, "is"@),
        ("recipes"@, "are"@),
        ("pasta"@, "is"@),
        ("pizza"@, "is"@),
        ("dessert"@, "is"@),
        ("vegetarian"@, "is"@),
        ("vegan"@, "is"@),
        ("wine"@, "is"@),
        ("coffee"@, "is"@),
        ("restaurant"@, "is a"@),
        ("cuisine"@, "is"@),
    ]
}

/// The default movies topics.
pub open spec fn default_movies() -> Seq<(Seq<char>, Seq<char>)> {
    seq![
        ("movies"@, "are"@),
        ("tv shows"@, "are"@),
        ("netflix"@, "is"@),
        ("actors"@, "are"@),
        ("actresses"@, "are"@),
        ("directors"@, "are"@),
        ("oscars"@, "are the"@),
        ("hollywood"@, "is"@),
        ("cinema"@, "is"@),
        ("documentaries"@, "are"@),
        ("animation"@, "is"@),
    ]
}

/// The default history topics.
pub open spec fn default_history() -> Seq<(Seq<char>, Seq<char>)> {
    seq![
        ("ancient egypt"@, "is"@),
        ("roman empire"@, "is the"@),
        ("world war 1"@, "was"@),
        ("world war 2"@, "was"@),
        ("civil war"@, "was the"@),
        ("renaissance"@, "was the"@),
        ("industrial revolution"@, "was the"@),
        ("cold war"@, "was the"@),
        ("middle ages"@, "were the"@),
    ]
}

/// The default geography topics.
pub open spec fn default_geography() -> Seq<(Seq<char>, Seq<char>)> {
    seq![
        ("countries"@, "are"@),
        ("capitals"@, "are"@),
        ("mountains"@, "are"@),
        ("rivers"@, "are"@),
        ("oceans"@, "are"@),
        ("deserts"@, "are"@),
        ("forests"@, "are"@),
        ("volcanoes"@, "are"@),
        ("islands"@, "are"@),
    ]
}

/// The default politics topics.
pub open spec fn default_politics() -> Seq<(Seq<char>, Seq<char>)> {
    seq![
        ("president"@, "is the"@),
        ("elections"@, "are"@),
        ("government"@, "is"@),
        ("democracy"@, "is"@),
        ("senate"@, "is the"@),
        ("congress"@, "is"@),
        ("supreme court"@, "is the"@),
        ("taxes"@, "are"@),
        ("immigration"@, "is"@),
    ]
}

/// The default science topics.
pub open spec fn default_science() -> Seq<(Seq<char>, Seq<char>)> {
    seq![
        ("biology"@, "is"@),
        ("chemistry"@, "is"@),
        ("physics"@, "is"@),
        ("astronomy"@, "is"@),
        ("evolution"@, "is"@),
        ("dna"@, "is"@),
        ("cells"@, "are"@),
        ("planets"@, "are"@),
        ("black holes"@, "are"@),
        ("climate change"@, "is"@),
    ]
}

/// The default health topics.
pub open spec fn default_health() -> Seq<(Seq<char>, Seq<char>)> {
    seq![
        ("medicine"@, "is"@),
        ("diseases"@, "are"@),
        ("exercise"@, "is"@),
        ("nutrition"@, "is"@),
        ("mental health"@, "is"@),
        ("vaccines"@, "are"@),
        ("surgery"@, "is"@),
        ("pharmacy"@, "is"@),
    ]
}

/// The default art topics.
pub open spec fn default_art() -> Seq<(Seq<char>, Seq<char>)> {
    seq![
        ("art"@, "is"@),
        ("painting"@, "is"@),
        ("sculpture"@, "is"@),
        ("books"@, "are"@),
        ("poetry"@, "is"@),
        ("novels"@, "are"@),
        ("authors"@, "are"@),
        ("literature"@, "is"@),
    ]
}

/// The default music topics.
pub open spec fn default_music() -> Seq<(Seq<char>, Seq<char>)> {
    seq![
        ("rock music"@, "is"@),
        ("jazz"@, "is"@),
        ("classical music"@, "is"@),
        ("hip hop"@, "is"@),
        ("pop music"@, "is"@),
        ("concerts"@, "are"@),
        ("instruments"@, "are"@),
    ]
}

/// The default fashion topics.
pub open spec fn default_fashion() -> Seq<(Seq<char>, Seq<char>)> {
    seq![
        ("fashion"@, "is"@),
        ("clothing"@, "is"@),
        ("shoes"@, "are"@),
        ("designers"@, "are"@),
        ("models"@, "are"@),
        ("runway"@, "is"@),
        ("style"@, "is"@),
    ]
}

/// The default travel topics.
pub open spec fn default_travel() -> Seq<(Seq<char>, Seq<char>)> {
    seq![
        ("travel"@, "is"@),
        ("hotels"@, "are"@),
        ("flights"@, "are"@),
        ("tourism"@, "is"@),
        ("destinations"@, "are"@),
        ("beaches"@, "are"@),
        ("mountains"@, "are"@),
        ("cities"@, "are"@),
    ]
}

/// The default pets topics.
pub open spec fn default_pets() -> Seq<(Seq<char>, Seq<char>)> {
    seq![
        ("dogs"@, "are"@),
        ("cats"@, "are"@),
        ("birds"@, "are"@),
        ("fish"@, "are"@),
        ("reptiles"@, "are"@),
        ("pet care"@, "is"@),
        ("training"@, "is"@),
        ("veterinary"@, "is"@),
    ]
}

/// The default cars topics.
pub open spec fn default_cars() -> Seq<(Seq<char>, Seq<char>)> {
    seq![
        ("cars"@, "are"@),
        ("trucks"@, "are"@),
        ("electric vehicles"@, "are"@),
        ("racing"@, "is"@),
        ("maintenance"@, "is"@),
        ("dealerships"@, "are"@),
    ]
}

fn topic(value: &str, prefix: &str) -> (t: BeyondScopeTopic)
    ensures
        topic_view(t) == (value@, prefix@),
{
    BeyondScopeTopic { value: value.to_owned(), prefix: prefix.to_owned() }
}

fn sports_topics() -> (v: Vec<BeyondScopeTopic>)
    ensures
        topics_view(v@) == default_sports(),
{
    let v = vec![
        topic("soccer", "is"),
        topic("basketball", "is"),
        topic("football", "is"),
        topic("baseball", "is"),
        topic("tennis", "is"),
        topic("golf", "is"),
        topic("cricket", "is"),
        topic("rugby", "is"),
        topic("hockey", "is"),
        topic("olympics", "is the"),
        topic("world cup", "is the"),
        topic("super bowl", "is the"),
    ];
    assert(topics_view(v@) =~= default_sports());
    v
}

fn food_topics() -> (v: Vec<BeyondScopeTopic>)
    ensures
        topics_view(v@) == default_food(),
{
    let v = vec![
        topic("cooking", "is"),
        topic("baking", "is"),
        topic("recipes", "are"),
        topic("pasta", "is"),
        topic("pizza", "is"),
        topic("dessert", "is"),
        topic("vegetarian", "is"),
        topic("vegan", "is"),
        topic("wine", "is"),
        topic("coffee", "is"),
        topic("restaurant", "is a"),
        topic("cuisine", "is"),
    ];
    assert(topics_view(v@) =~= default_food());
    v
}

fn movies_topics() -> (v: Vec<BeyondScopeTopic>)
    ensures
        topics_view(v@) == default_movies(),
{
    let v = vec![
        topic("movies", "are"),
        topic("tv shows", "are"),
        topic("netflix", "is"),
        topic("actors", "are"),
        topic("actresses", "are"),
        topic("directors", "are"),
        topic("oscars", "are the"),
        topic("hollywood", "is"),
        topic("cinema", "is"),
        topic("documentaries", "are"),
        topic("animation", "is"),
    ];
    assert(topics_view(v@) =~= default_movies());
    v
}

fn history_topics() -> (v: Vec<BeyondScopeTopic>)
    ensures
        topics_view(v@) == default_history(),
{
    let v = vec![
        topic("ancient egypt", "is"),
        topic("roman empire", "is the"),
        topic("world war 1", "was"),
        topic("world war 2", "was"),
        topic("civil war", "was the"),
        topic("renaissance", "was the"),
        topic("industrial revolution", "was the"),
        topic("cold war", "was the"),
        topic("middle ages", "were the"),
    ];
    assert(topics_view(v@) =~= default_history());
    v
}

fn geography_topics() -> (v: Vec<BeyondScopeTopic>)
    ensures
        topics_view(v@) == default_geography(),
{
    let v = vec![
        topic("countries", "are"),
        topic("capitals", "are"),
        topic("mountains", "are"),
        topic("rivers", "are"),
        topic("oceans", "are"),
        topic("deserts", "are"),
        topic("forests", "are"),
        topic("volcanoes", "are"),
        topic("islands", "are"),
    ];
    assert(topics_view(v@) =~= default_geography());
    v
}

fn politics_topics() -> (v: Vec<BeyondScopeTopic>)
    ensures
        topics_view(v@) == default_politics(),
{
    let v = vec![
        topic("president", "is the"),
        topic("elections", "are"),
        topic("government", "is"),
        topic("democracy", "is"),
        topic("senate", "is the"),
        topic("congress", "is"),
        topic("supreme court", "is the"),
        topic("taxes", "are"),
        topic("immigration", "is"),
    ];
    assert(topics_view(v@) =~= default_politics());
    v
}

fn science_topics() -> (v: Vec<BeyondScopeTopic>)
    ensures
        topics_view(v@) == default_science(),
{
    let v = vec![
        topic("biology", "is"),
        topic("chemistry", "is"),
        topic("physics", "is"),
        topic("astronomy", "is"),
        topic("evolution", "is"),
        topic("dna", "is"),
        topic("cells", "are"),
        topic("planets", "are"),
        topic("black holes", "are"),
        topic("climate change", "is"),
    ];
    assert(topics_view(v@) =~= default_science());
    v
}

fn health_topics() -> (v: Vec<BeyondScopeTopic>)
    ensures
        topics_view(v@) == default_health(),
{
    let v = vec![
        topic("medicine", "is"),
        topic("diseases", "are"),
        topic("exercise", "is"),
        topic("nutrition", "is"),
        topic("mental health", "is"),
        topic("vaccines", "are"),
        topic("surgery", "is"),
        topic("pharmacy", "is"),
    ];
    assert(topics_view(v@) =~= default_health());
    v
}

fn art_topics() -> (v: Vec<BeyondScopeTopic>)
    ensures
        topics_view(v@) == default_art(),
{
    let v = vec![
        topic("art", "is"),
        topic("painting", "is"),
        topic("sculpture", "is"),
        topic("books", "are"),
        topic("poetry", "is"),
        topic("novels", "are"),
        topic("authors", "are"),
        topic("literature", "is"),
    ];
    assert(topics_view(v@) =~= default_art());
    v
}

fn music_topics() -> (v: Vec<BeyondScopeTopic>)
    ensures
        topics_view(v@) == default_music(),
{
    let v = vec![
        topic("rock music", "is"),
        topic("jazz", "is"),
        topic("classical music", "is"),
        topic("hip hop", "is"),
        topic("pop music", "is"),
        topic("concerts", "are"),
        topic("instruments", "are"),
    ];
    assert(topics_view(v@) =~= default_music());
    v
}

fn fashion_topics() -> (v: Vec<BeyondScopeTopic>)
    ensures
        topics_view(v@) == default_fashion(),
{
    let v = vec![
        topic("fashion", "is"),
        topic("clothing", "is"),
        topic("shoes", "are"),
        topic("designers", "are"),
        topic("models", "are"),
        topic("runway", "is"),
        topic("style", "is"),
    ];
    assert(topics_view(v@) =~= default_fashion());
    v
}

fn travel_topics() -> (v: Vec<BeyondScopeTopic>)
    ensures
        topics_view(v@) == default_travel(),
{
    let v = vec![
        topic("travel", "is"),
        topic("hotels", "are"),
        topic("flights", "are"),
        topic("tourism", "is"),
        topic("destinations", "are"),
        topic("beaches", "are"),
        topic("mountains", "are"),
        topic("cities", "are"),
    ];
    assert(topics_view(v@) =~= default_travel());
    v
}

fn pets_topics() -> (v: Vec<BeyondScopeTopic>)
    ensures
        topics_view(v@) == default_pets(),
{
    let v = vec![
        topic("dogs", "are"),
        topic("cats", "are"),
        topic("birds", "are"),
        topic("fish", "are"),
        topic("reptiles", "are"),
        topic("pet care", "is"),
        topic("training", "is"),
        topic("veterinary", "is"),
    ];
    assert(topics_view(v@) =~= default_pets());
    v
}

fn cars_topics() -> (v: Vec<BeyondScopeTopic>)
    ensures
        topics_view(v@) == default_cars(),
{
    let v = vec![
        topic("cars", "are"),
        topic("trucks", "are"),
        topic("electric vehicles", "are"),
        topic("racing", "is"),
        topic("maintenance", "is"),
        topic("dealerships", "are"),
    ];
    assert(topics_view(v@) =~= default_cars());
    v
}

impl Default for BeyondScope {
    /// Every category with its default topics.
    fn default() -> (r: BeyondScope)
        ensures
            topics_view(r.sports@) == default_sports(),
            topics_view(r.food@) == default_food(),
            topics_view(r.movies@) == default_movies(),
            topics_view(r.history@) == default_history(),
            topics_view(r.geography@) == default_geography(),
            topics_view(r.politics@) == default_politics(),
            topics_view(r.science@) == default_science(),
            topics_view(r.health@) == default_health(),
            topics_view(r.art@) == default_art(),
            topics_view(r.music@) == default_music(),
            topics_view(r.fashion@) == default_fashion(),
            topics_view(r.travel@) == default_travel(),
            topics_view(r.pets@) == default_pets(),
            topics_view(r.cars@) == default_cars(),
    {
        BeyondScope {
            sports: sports_topics(),
            food: food_topics(),
            movies: movies_topics(),
            history: history_topics(),
            geography: geography_topics(),
            politics: politics_topics(),
            science: science_topics(),
            health: health_topics(),
            art: art_topics(),
            music: music_topics(),
            fashion: fashion_topics(),
            travel: travel_topics(),
            pets: pets_topics(),
            cars: cars_topics(),
        }
    }
}

} // verus!
