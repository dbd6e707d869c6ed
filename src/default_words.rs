use vstd::prelude::*;

verus! {

/// The built-in word list: common English words, one per line.
pub const DEFAULT_WORD_LIST: &'static str = "a
able
about
above
act
add
age
ago
air
all
also
am
an
and
any
are
arm
art
as
ask
at
ate
away
back
bad
bag
ban
bar
bat
be
bed
bee
beg
bet
big
bin
bit
bog
boo
bot
bow
box
boy
bud
bug
bun
bus
but
buy
by
cab
can
cap
car
cat
cod
cog
con
cop
cot
cow
cry
cub
cue
cup
cut
dab
dad
dam
day
den
dew
did
die
dig
dim
din
dip
do
doe
dog
don
dot
dry
due
dug
dye
ear
eat
egg
ego
elf
elk
elm
end
era
eve
eye
fan
far
fat
fed
fee
few
fig
fin
fir
fit
fix
fly
foe
fog
for
fox
fry
fun
fur
gag
gap
gas
gel
gem
get
gig
gin
god
got
gum
gun
gut
guy
gym
had
ham
has
hat
hay
hen
her
hid
him
hip
his
hit
hog
hop
hot
how
hub
hue
hug
hum
hut
ice
icy
ill
imp
ink
inn
ion
its
ivy
jab
jam
jar
jaw
jet
jig
job
jog
jot
joy
jug
keg
ken
key
kid
kin
kit
lab
lad
lag
lap
law
lay
led
leg
let
lid
lie
lip
lit
log
lot
low
mad
man
map
mat
may
men
met
mix
mob
mop
mud
mug
nab
nag
nap
net
new
nil
nod
nor
not
now
nut
oak
oar
oat
odd
off
oft
oil
old
one
opt
orb
ore
our
out
owe
owl
own
pad
pal
pan
pat
paw
pay
pea
pen
pet
pie
pig
pin
pit
pod
pop
pot
pro
pub
pun
pup
put
rag
ram
ran
rap
rat
raw
ray
red
rib
rid
rig
rim
rip
rob
rod
roe
rot
row
rub
rug
rum
run
rut
rye
sad
sag
sap
sat
saw
say
sea
see
set
sew
she
shy
sin
sip
sir
sis
sit
six
ski
sky
sly
sob
sod
son
sow
soy
spa
spy
sub
sum
sun
tab
tag
tan
tap
tar
tax
tea
ten
the
tie
tin
tip
toe
ton
too
top
tot
tow
toy
try
tub
tug
two
use
van
vat
vet
via
vie
vow
wad
wag
war
was
wax
way
web
wed
wet
who
why
wig
win
wit
woe
won
wow
yak
yam
yap
yes
yet
you
zap
zen
zip
zoo
acid
aged
area
army
baby
ball
band
bank
base
bath
bear
beat
been
beer
bell
belt
best
bill
bird
blow
blue
boat
body
bomb
bond
bone
book
boom
born
boss
both
bowl
bulk
burn
bush
busy
cake
call
calm
came
camp
card
care
case
cash
cast
cell
chat
chip
city
club
coal
coat
code
cold
come
cook
cool
cope
copy
core
cost
crew
crop
dark
data
date
dawn
days
dead
deal
dear
debt
deep
deny
desk
dial
diet
dirt
disc
dish
does
done
door
dose
down
draw
drew
drop
drug
dual
duke
dust
duty
each
earn
ease
east
easy
edge
else
even
ever
exit
face
fact
fail
fair
fall
farm
fast
fate
fear
feed
feel
feet
fell
felt
file
fill
film
find
fine
fire
firm
fish
five
flat
flow
food
foot
ford
form
fort
four
free
from
fuel
full
fund
gain
game
gate
gave
gear
gift
girl
give
glad
goal
goes
gold
golf
gone
good
gray
grew
grey
grow
gulf
hair
half
hall
hand
hang
hard
harm
hate
have
head
hear
heat
held
hell
help
here
hero
high
hill
hire
hold
hole
holy
home
hope
host
hour
huge
hung
hunt
hurt
idea
inch
into
iron
item
jack
join
jump
jury
just
keen
keep
kept
kick
kill
kind
king
knee
knew
know
lack
lady
laid
lake
land
lane
last
late
lead
left
less
life
lift
like
line
link
list
live
load
loan
lock
long
look
lord
lose
loss
lost
love
luck
made
mail
main
make
male
many
mark
mass
meal
mean
meat
meet
menu
mere
mile
milk
mill
mind
mine
miss
mode
mood
moon
more
most
move
much
must
name
navy
near
neck
need
news
next
nice
nine
none
nose
note
okay
once
only
onto
open
oral
over
pace
pack
page
paid
pain
pair
palm
park
part
pass
past
path
peak
pick
pink
pipe
plan
play
plot
plus
poll
pool
poor
port
post
pull
pure
push
race
rail
rain
rank
rare
rate
read
real
rear
rely
rent
rest
rice
rich
ride
ring
rise
risk
road
rock
role
roll
roof
room
root
rose
rule
rush
safe
said
sake
sale
salt
same
sand
save
seat
seed
seek
seem
seen
self
sell
send
sent
ship
shop
shot
show
shut
sick
side
sign
site
size
skin
slip
slow
snow
soft
soil
sold
sole
some
song
soon
sort
soul
spot
star
stay
step
stop
such
suit
sure
take
tale
talk
tall
tank
tape
task
team
tech
tell
tend
term
test
text
than
that
them
then
they
thin
this
thus
till
time
tiny
told
toll
tone
took
tool
tour
town
tree
trip
true
tune
turn
twin
type
unit
upon
used
user
vary
vast
very
vice
view
vote
wage
wait
wake
walk
wall
want
ward
warm
wash
wave
ways
weak
wear
week
well
went
were
west
what
when
whom
wide
wife
wild
will
wind
wine
wing
wire
wise
wish
with
wood
word
wore
work
yard
yeah
year
your
zero
zone
";

} // verus!
