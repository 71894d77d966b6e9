/*
 * Is there a host path that is mounted at its own place? Such a path is the
 * directory of the mounts followed by the sixteen digits of its own FNV-1a digest.
 * There are 2^64 candidates; this program goes through all of them and prints each
 * path it finds. It finds none.
 *
 *     cc -O3 -o own_mount own_mount.c && ./own_mount
 *
 * The low n bits of a digest depend on the low n bits of the state and of the bytes
 * alone, and each step can be undone. So the sixteen digits are cut into four parts
 * A B C D, and for every value k of the low sixteen bits of the state behind B:
 *
 * - the pairs A B that lead to k are found by undoing B from k and looking A up;
 * - the pairs C D that lead from k to a digest that ends in D are found by applying C
 *   to k and looking D up;
 * - both lists are joined where they agree on sixteen bits more of the state behind
 *   B, so that the digest ends in C D, and what is left is tried out.
 *
 * Each of the 2^32 pairs A B and each of the 2^32 pairs C D comes up once.
 */
#include <stdint.h>
#include <stdio.h>
#include <string.h>

#define MOUNTS "/athena/mounts/"
#define OFFSET 0xcbf29ce484222325ULL
#define PRIME 0x100000001b3ULL
#define PARTS 65536
#define ROOM (1 << 20)

static unsigned char digits[PARTS][4];
static uint32_t inverse; /* of the low half of PRIME */

static uint64_t apply(uint64_t state, uint32_t part)
{
    for (int i = 0; i < 4; i++)
        state = (state ^ digits[part][i]) * PRIME;
    return state;
}

static uint32_t undo(uint32_t state, uint32_t part)
{
    for (int i = 3; i >= 0; i--)
        state = (state * inverse) ^ digits[part][i];
    return state;
}

/* The parts by their keys: those with key k are items[start[k]] up to
 * items[start[k + 1]]. */
struct index {
    uint32_t start[PARTS + 1];
    uint32_t items[PARTS];
};

static void build(struct index *x, const uint16_t *keys)
{
    static uint32_t next[PARTS];
    memset(x->start, 0, sizeof x->start);
    for (uint32_t p = 0; p < PARTS; p++)
        x->start[keys[p] + 1]++;
    for (uint32_t k = 0; k < PARTS; k++)
        x->start[k + 1] += x->start[k];
    memcpy(next, x->start, sizeof next);
    for (uint32_t p = 0; p < PARTS; p++)
        x->items[next[keys[p]]++] = p;
}

static struct index by_a, by_d;
static uint64_t behind_a[PARTS];
static uint16_t key_a[PARTS], key_d[PARTS];

static uint32_t head[PARTS], link_of[ROOM], front[ROOM];
static uint64_t behind_b[ROOM];

int main(void)
{
    uint64_t state = OFFSET, fronts = 0, backs = 0, found = 0;
    for (const char *c = MOUNTS; *c; c++)
        state = (state ^ (unsigned char)*c) * PRIME;
    inverse = 1;
    for (int i = 0; i < 6; i++)
        inverse *= 2 - (uint32_t)PRIME * inverse;
    for (uint32_t p = 0; p < PARTS; p++)
        for (int i = 0; i < 4; i++)
            digits[p][i] = "0123456789abcdef"[(p >> (12 - 4 * i)) & 15];
    for (uint32_t p = 0; p < PARTS; p++) {
        behind_a[p] = apply(state, p);
        key_a[p] = (uint16_t)behind_a[p];
        key_d[p] = (uint16_t)undo(p, p);
    }
    build(&by_a, key_a);
    build(&by_d, key_d);

    for (uint32_t k = 0; k < PARTS; k++) {
        uint32_t n = 1;
        memset(head, 0, sizeof head);
        for (uint32_t b = 0; b < PARTS; b++) {
            uint16_t need = (uint16_t)undo(k, b);
            for (uint32_t x = by_a.start[need]; x < by_a.start[need + 1]; x++) {
                uint32_t a = by_a.items[x];
                uint64_t s = apply(behind_a[a], b);
                uint16_t key = (uint16_t)(s >> 16);
                if (n == ROOM) {
                    fprintf(stderr, "no room\n");
                    return 1;
                }
                front[n] = (a << 16) | b;
                behind_b[n] = s;
                link_of[n] = head[key];
                head[key] = n++;
            }
        }
        fronts += n - 1;
        for (uint32_t c = 0; c < PARTS; c++) {
            uint16_t got = (uint16_t)apply(k, c);
            for (uint32_t x = by_d.start[got]; x < by_d.start[got + 1]; x++) {
                uint32_t d = by_d.items[x];
                uint32_t back = (c << 16) | d;
                uint16_t key = (uint16_t)(undo(undo(back, d), c) >> 16);
                backs++;
                for (uint32_t y = head[key]; y; y = link_of[y]) {
                    uint64_t digest = apply(apply(behind_b[y], c), d);
                    if (digest == (((uint64_t)front[y] << 32) | back)) {
                        printf("%s%016llx\n", MOUNTS, (unsigned long long)digest);
                        found++;
                    }
                }
            }
        }
    }
    printf("%llu fronts, %llu backs, %llu found\n", (unsigned long long)fronts,
           (unsigned long long)backs, (unsigned long long)found);
    return 0;
}
